//! Web addresses in text: finding them, and marking them as links for the
//! terminal.

use vstd::prelude::*;

use regex::Regex;

use crate::bytes::{byte_at, lemma_char_pos, position_at};
use crate::text::{chars_of, is_whitespace, slice_of, starts_with, string_of};
use crate::width::{
    lemma_width_concat, lemma_width_prefix, text_width, CharWidths, WidthTable,
};

verus! {

// ---------------------------------------------------------------------------
// Specification
// ---------------------------------------------------------------------------

/// Whether an address can hold `c`: neither a control character, nor
/// whitespace, nor an angle bracket.
pub open spec fn url_char(c: char) -> bool {
    !(c <= '\u{1f}' || c == '\u{7f}' || is_whitespace(c) || c == '<' || c == '>')
}

/// The length of the scheme that `s` begins with, or zero.
pub open spec fn scheme_len(s: Seq<char>) -> nat {
    if starts_with(s, "http://"@) {
        7
    } else if starts_with(s, "https://"@) {
        8
    } else {
        0
    }
}

/// One past the run of address characters that starts at `i`.
pub open spec fn run_end(s: Seq<char>, i: int) -> int
    decreases s.len() - i,
{
    if 0 <= i < s.len() && url_char(s[i]) {
        run_end(s, i + 1)
    } else {
        i
    }
}

/// Whether an address starts at `i`: a scheme and at least one character more.
pub open spec fn url_starts(s: Seq<char>, i: int) -> bool {
    let body = i + scheme_len(s.skip(i));
    scheme_len(s.skip(i)) > 0 && body < s.len() && url_char(s[body])
}

/// The first position at or after `from` where an address starts, or the end.
pub open spec fn next_url(s: Seq<char>, from: int) -> int
    decreases s.len() - from,
{
    if from < 0 || from >= s.len() {
        s.len() as int
    } else if url_starts(s, from) {
        from
    } else {
        next_url(s, from + 1)
    }
}

/// One past the address that starts at `i`.
pub open spec fn url_end(s: Seq<char>, i: int) -> int {
    run_end(s, i + scheme_len(s.skip(i)))
}

/// Start and end of the addresses in `s` from `from` on, which do not overlap.
pub open spec fn urls_from(s: Seq<char>, from: int) -> Seq<(int, int)>
    decreases s.len() - from,
{
    let i = next_url(s, from);
    let j = url_end(s, i);
    if 0 <= from <= i && i < j && j <= s.len() {
        seq![(i, j)] + urls_from(s, j)
    } else {
        Seq::empty()
    }
}

/// Start and end of the addresses in `s`.
#[verifier::opaque]
pub open spec fn urls(s: Seq<char>) -> Seq<(int, int)> {
    urls_from(s, 0)
}

/// Where the text before address `k` starts.
pub open spec fn gap_start(us: Seq<(int, int)>, k: nat) -> int {
    if k == 0 {
        0
    } else {
        us[k - 1].1
    }
}

/// An address as a link: the escape sequences name it and enclose it.
pub open spec fn linked(url: Seq<char>) -> Seq<char> {
    "\x1b]8;;"@ + url + "\x1b\\"@ + url + "\x1b]8;;\x1b\\"@
}

/// The text up to and with the first `k` addresses, as links.
pub open spec fn linked_to(s: Seq<char>, us: Seq<(int, int)>, k: nat) -> Seq<char>
    decreases k,
{
    if k == 0 {
        Seq::empty()
    } else {
        let (i, j) = us[k - 1];
        linked_to(s, us, (k - 1) as nat) + s.subrange(gap_start(us, (k - 1) as nat), i) + linked(
            s.subrange(i, j),
        )
    }
}

/// The text with its addresses as links.
pub open spec fn with_links(s: Seq<char>) -> Seq<char> {
    let us = urls(s);
    linked_to(s, us, us.len()) + s.skip(gap_start(us, us.len()))
}

/// Whether column `col` falls on the address `u` of `s`.
pub open spec fn covers(t: WidthTable, s: Seq<char>, u: (int, int), col: nat) -> bool {
    let start = text_width(t, s.take(u.0));
    start <= col < start + text_width(t, s.subrange(u.0, u.1))
}

/// The first address from number `k` on that column `col` falls on.
pub open spec fn url_under(
    t: WidthTable,
    s: Seq<char>,
    us: Seq<(int, int)>,
    col: nat,
    k: nat,
) -> Option<Seq<char>>
    decreases us.len() - k,
{
    if k >= us.len() {
        None
    } else if covers(t, s, us[k as int], col) {
        Some(s.subrange(us[k as int].0, us[k as int].1))
    } else {
        url_under(t, s, us, col, k + 1)
    }
}

// ---------------------------------------------------------------------------
// Laws
// ---------------------------------------------------------------------------

proof fn lemma_run_end(s: Seq<char>, i: int)
    requires
        0 <= i <= s.len(),
    ensures
        i <= run_end(s, i) <= s.len(),
    decreases s.len() - i,
{
    if i < s.len() && url_char(s[i]) {
        lemma_run_end(s, i + 1);
    }
}

proof fn lemma_next_url(s: Seq<char>, from: int)
    requires
        0 <= from <= s.len(),
    ensures
        from <= next_url(s, from) <= s.len(),
        next_url(s, from) < s.len() ==> url_starts(s, next_url(s, from)),
    decreases s.len() - from,
{
    if from < s.len() && !url_starts(s, from) {
        lemma_next_url(s, from + 1);
    }
}

/// Whether the addresses lie in `s[from..]`, one after the other and none
/// empty.
pub open spec fn in_order(s: Seq<char>, us: Seq<(int, int)>, from: int) -> bool {
    &&& forall|k: int|
        0 <= k < us.len() ==> from <= (#[trigger] us[k]).0 < us[k].1 && us[k].1 <= s.len()
    &&& forall|k: int| 0 < k < us.len() ==> us[k - 1].1 <= (#[trigger] us[k]).0
}

proof fn lemma_urls_from(s: Seq<char>, from: int)
    requires
        0 <= from <= s.len(),
    ensures
        in_order(s, urls_from(s, from), from),
    decreases s.len() - from,
{
    let us = urls_from(s, from);
    let i = next_url(s, from);
    let j = url_end(s, i);
    lemma_next_url(s, from);
    if i < j && j <= s.len() {
        let rest = urls_from(s, j);
        lemma_urls_from(s, j);
        assert(us =~= seq![(i, j)] + rest);
        assert forall|k: int| 0 <= k < us.len() implies from <= (#[trigger] us[k]).0 < us[k].1
            && us[k].1 <= s.len() by {
            if k > 0 {
                assert(us[k] == rest[k - 1]);
            }
        }
        assert forall|k: int| 0 < k < us.len() implies us[k - 1].1 <= (#[trigger] us[k]).0 by {
            assert(us[k] == rest[k - 1]);
            if k > 1 {
                assert(us[k - 1] == rest[k - 2]);
            }
        }
    }
}

/// The addresses of a text lie in it, one after the other and none empty.
pub proof fn lemma_urls_in_order(s: Seq<char>)
    ensures
        in_order(s, urls(s), 0),
{
    reveal(urls);
    lemma_urls_from(s, 0);
}

/// What a terminal shows of the text up to and with the first `k` addresses:
/// the gaps and the addresses, without the escape sequences.
pub open spec fn shown_to(s: Seq<char>, us: Seq<(int, int)>, k: nat) -> Seq<char>
    decreases k,
{
    if k == 0 {
        Seq::empty()
    } else {
        let (i, j) = us[k - 1];
        shown_to(s, us, (k - 1) as nat) + s.subrange(gap_start(us, (k - 1) as nat), i)
            + s.subrange(i, j)
    }
}

proof fn lemma_shown_to(s: Seq<char>, us: Seq<(int, int)>, k: nat)
    requires
        in_order(s, us, 0),
        k <= us.len(),
    ensures
        shown_to(s, us, k) == s.take(gap_start(us, k)),
        0 <= gap_start(us, k) <= s.len(),
    decreases k,
{
    if k == 0 {
        assert(s.take(0) =~= Seq::<char>::empty());
    } else {
        let m = (k - 1) as nat;
        let (i, j) = us[k - 1];
        lemma_shown_to(s, us, m);
        assert(us[k - 1].0 < us[k - 1].1);
        if m > 0 {
            assert(us[m - 1].1 <= us[m as int].0);
        }
        assert(s.take(gap_start(us, m)) + s.subrange(gap_start(us, m), i) + s.subrange(i, j)
            =~= s.take(j));
    }
}

/// Marking links changes nothing of what is shown: gaps and addresses together
/// are the text.
pub proof fn lemma_links_show_text(s: Seq<char>)
    ensures
        shown_to(s, urls(s), urls(s).len()) + s.skip(gap_start(urls(s), urls(s).len())) == s,
{
    let us = urls(s);
    lemma_urls_in_order(s);
    lemma_shown_to(s, us, us.len());
    let end = gap_start(us, us.len());
    assert(s.take(end) + s.skip(end) =~= s);
}

proof fn lemma_under_found(
    t: WidthTable,
    s: Seq<char>,
    us: Seq<(int, int)>,
    col: nat,
    from: nat,
    k: nat,
)
    requires
        from <= k < us.len(),
        in_order(s, us, 0),
        covers(t, s, us[k as int], col),
    ensures
        url_under(t, s, us, col, from) == Some(s.subrange(us[k as int].0, us[k as int].1)),
    decreases k - from,
{
    if from < k {
        let a = us[from as int];
        let b = us[k as int];
        lemma_order(s, us, from as int, k as int);
        assert(a.0 < a.1 && b.0 < b.1);
        assert(s.take(a.1) =~= s.take(a.0) + s.subrange(a.0, a.1));
        lemma_width_concat(t, s.take(a.0), s.subrange(a.0, a.1));
        assert(s.take(b.0).take(a.1) =~= s.take(a.1));
        lemma_width_prefix(t, s.take(b.0), a.1);
        assert(!covers(t, s, a, col));
        lemma_under_found(t, s, us, col, from + 1, k);
    }
}

proof fn lemma_order(s: Seq<char>, us: Seq<(int, int)>, i: int, k: int)
    requires
        in_order(s, us, 0),
        0 <= i < k < us.len(),
    ensures
        us[i].1 <= us[k].0,
    decreases k - i,
{
    assert(us[k - 1].1 <= us[k].0);
    if i < k - 1 {
        lemma_order(s, us, i, k - 1);
        assert(us[k - 1].0 < us[k - 1].1);
    }
}

/// A click on any column of an address opens that address.
pub proof fn lemma_click_opens(t: WidthTable, s: Seq<char>, col: nat, k: nat)
    requires
        k < urls(s).len(),
    ensures
        ({
            let (i, j) = urls(s)[k as int];
            text_width(t, s.take(i)) <= col < text_width(t, s.take(j)) ==> url_under(
                t,
                s,
                urls(s),
                col,
                0,
            ) == Some(s.subrange(i, j))
        }),
{
    let us = urls(s);
    let (i, j) = us[k as int];
    lemma_urls_in_order(s);
    assert(us[k as int].0 < us[k as int].1);
    assert(s.take(j) =~= s.take(i) + s.subrange(i, j));
    lemma_width_concat(t, s.take(i), s.subrange(i, j));
    if text_width(t, s.take(i)) <= col < text_width(t, s.take(j)) {
        lemma_under_found(t, s, us, col, 0, k);
    }
}

proof fn lemma_under_none(
    t: WidthTable,
    s: Seq<char>,
    us: Seq<(int, int)>,
    col: nat,
    from: nat,
)
    requires
        forall|k: int| 0 <= k < us.len() ==> !covers(t, s, #[trigger] us[k], col),
    ensures
        url_under(t, s, us, col, from) is None,
    decreases us.len() - from,
{
    if from < us.len() {
        lemma_under_none(t, s, us, col, from + 1);
    }
}

/// A click beside all addresses opens none.
pub proof fn lemma_click_beside(t: WidthTable, s: Seq<char>, col: nat)
    requires
        forall|k: int| 0 <= k < urls(s).len() ==> !covers(t, s, #[trigger] urls(s)[k], col),
    ensures
        url_under(t, s, urls(s), col, 0) is None,
{
    lemma_under_none(t, s, urls(s), col, 0);
}

// ---------------------------------------------------------------------------
// Implementation
// ---------------------------------------------------------------------------

/// A compiled regular expression.
#[verifier::external_type_specification]
#[verifier::external_body]
pub struct ExRegex(regex::Regex);

/// The text that a regular expression was compiled from.
pub uninterp spec fn pattern_of(re: regex::Regex) -> Seq<char>;

/// The pattern for addresses.
pub open spec fn url_pattern() -> Seq<char> {
    "https?://[^\\x00-\\x1f\\x7f\\s<>]+"@
}

/// `Regex::new` of regex, on the pattern for addresses, which compiles.
#[verifier::external_body]
fn compile(pattern: &str) -> (r: regex::Regex)
    requires
        pattern@ == url_pattern(),
    ensures
        pattern_of(r) == pattern@,
{
    Regex::new(pattern).expect("the pattern compiles")
}

/// `Regex::find_iter` of regex, for the pattern for addresses: the leftmost
/// matches that do not overlap, each as long as it can be. A match is a scheme
/// and a run of address characters; its start and end are byte offsets.
#[verifier::external_body]
fn find_spans(re: &regex::Regex, text: &str) -> (r: Vec<(usize, usize)>)
    requires
        pattern_of(*re) == url_pattern(),
    ensures
        r@.len() == urls(text@).len(),
        forall|k: int|
            0 <= k < r@.len() ==> (#[trigger] r@[k]).0 == byte_at(text@, urls(text@)[k].0)
                && r@[k].1 == byte_at(text@, urls(text@)[k].1),
{
    re.find_iter(text).map(|m| (m.start(), m.end())).collect()
}

/// The compiled pattern for addresses.
pub struct UrlScanner {
    re: regex::Regex,
}

/// Appends an address as a link.
fn push_link(out: &mut String, url: &str)
    ensures
        final(out)@ == old(out)@ + linked(url@),
{
    out.push_str("\x1b]8;;");
    out.push_str(url);
    out.push_str("\x1b\\");
    out.push_str(url);
    out.push_str("\x1b]8;;\x1b\\");
    assert(out@ =~= old(out)@ + linked(url@));
}

impl UrlScanner {
    #[verifier::type_invariant]
    spec fn holds_pattern(self) -> bool {
        self.pattern() == url_pattern()
    }

    /// The pattern that is searched for.
    pub closed spec fn pattern(self) -> Seq<char> {
        pattern_of(self.re)
    }

    /// Compiles the pattern.
    pub fn new() -> (r: UrlScanner)
        ensures
            r.pattern() == url_pattern(),
    {
        UrlScanner { re: compile("https?://[^\\x00-\\x1f\\x7f\\s<>]+") }
    }

    /// Start and end of the addresses in `text`, as character positions.
    pub fn scan(&self, text: &str) -> (r: Vec<(usize, usize)>)
        ensures
            r@.len() == urls(text@).len(),
            forall|k: int|
                0 <= k < r@.len() ==> (#[trigger] r@[k]).0 == urls(text@)[k].0 && r@[k].1
                    == urls(text@)[k].1,
    {
        let v = chars_of(text);
        let ghost us = urls(v@);
        proof {
            use_type_invariant(self);
        }
        let spans = find_spans(&self.re, text);
        proof {
            lemma_urls_in_order(v@);
        }
        let mut r: Vec<(usize, usize)> = Vec::new();
        let n: usize = spans.len();
        for k in 0..n
            invariant
                n == spans@.len() == us.len(),
                us == urls(v@),
                in_order(v@, us, 0),
                r@.len() == k,
                forall|i: int|
                    0 <= i < n ==> (#[trigger] spans@[i]).0 == byte_at(v@, us[i].0) && spans@[i].1
                        == byte_at(v@, us[i].1),
                forall|i: int| 0 <= i < k ==> (#[trigger] r@[i]).0 == us[i].0 && r@[i].1 == us[i].1,
        {
            let (from, to): (usize, usize) = spans[k];
            proof {
                assert(us[k as int].0 < us[k as int].1);
                lemma_char_pos(v@, us[k as int].0);
                lemma_char_pos(v@, us[k as int].1);
            }
            r.push((position_at(&v, from), position_at(&v, to)));
        }
        r
    }

    /// `text` with its addresses marked as links.
    pub fn wrap_urls_osc8(&self, text: &str) -> (r: String)
        ensures
            r@ == with_links(text@),
    {
        let v = chars_of(text);
        let ghost us = urls(v@);
        let found = self.scan(text);
        proof {
            lemma_urls_in_order(v@);
        }
        let mut result = String::new();
        let mut last: usize = 0;
        let n: usize = found.len();
        assert(result@ =~= Seq::<char>::empty());
        for k in 0..n
            invariant
                n == found@.len() == us.len(),
                in_order(v@, us, 0),
                forall|i: int|
                    0 <= i < n ==> (#[trigger] found@[i]).0 == us[i].0 && found@[i].1 == us[i].1,
                last == gap_start(us, k as nat),
                last <= v@.len(),
                result@ == linked_to(v@, us, k as nat),
        {
            let (from, to): (usize, usize) = found[k];
            proof {
                assert(us[k as int].0 < us[k as int].1);
                if k > 0 {
                    assert(us[k - 1].1 <= us[k as int].0);
                }
            }
            let gap = string_of(&slice_of(&v, last, from));
            let url = string_of(&slice_of(&v, from, to));
            result.push_str(gap.as_str());
            push_link(&mut result, url.as_str());
            last = to;
        }
        let rest = string_of(&slice_of(&v, last, v.len()));
        assert(rest@ =~= v@.skip(last as int));
        result.push_str(rest.as_str());
        result
    }

    /// The address in `text` that column `col` falls on.
    pub fn url_at_column(&self, text: &str, col: usize, widths: &CharWidths) -> (r: Option<String>)
        ensures
            match url_under(widths@, text@, urls(text@), col as nat, 0) {
                Some(u) => r matches Some(s) && s@ == u,
                None => r is None,
            },
    {
        let v = chars_of(text);
        let ghost us = urls(v@);
        let found = self.scan(text);
        proof {
            lemma_urls_in_order(v@);
        }
        let n: usize = found.len();
        for k in 0..n
            invariant
                n == found@.len() == us.len(),
                in_order(v@, us, 0),
                forall|i: int|
                    0 <= i < n ==> (#[trigger] found@[i]).0 == us[i].0 && found@[i].1 == us[i].1,
                v@ == text@,
                us == urls(v@),
                url_under(widths@, v@, us, col as nat, 0) == url_under(
                    widths@,
                    v@,
                    us,
                    col as nat,
                    k as nat,
                ),
        {
            let (from, to): (usize, usize) = found[k];
            proof {
                assert(us[k as int].0 < us[k as int].1);
            }
            let url = slice_of(&v, from, to);
            let prefix = slice_of(&v, 0, from);
            assert(prefix@ =~= v@.take(from as int));
            let start = widths.columns(&prefix);
            let width = widths.columns(&url);
            if start <= col as u128 && (col as u128) < start + width {
                return Some(string_of(&url));
            }
        }
        None
    }
}

} // verus!
