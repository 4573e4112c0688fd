//! The clipboard and the browser: which programs are tried, and what the
//! terminal is sent where none is there.

use vstd::prelude::*;

use crate::bytes::{base64, base64_encode, lemma_base64_round_trip, unbase64};
use crate::steps::copy_text;
use crate::text::string_seqs;

verus! {

/// A program and its arguments.
#[derive(Debug, PartialEq)]
pub struct Helper {
    pub program: String,
    pub args: Vec<String>,
}

/// What a [`Helper`] holds.
pub struct HelperView {
    pub program: Seq<char>,
    pub args: Seq<Seq<char>>,
}

impl View for Helper {
    type V = HelperView;

    open spec fn view(&self) -> HelperView {
        HelperView { program: self.program@, args: string_seqs(self.args@) }
    }
}

/// The views of a list of programs.
pub open spec fn helper_views(v: Seq<Helper>) -> Seq<HelperView> {
    v.map_values(|h: Helper| h@)
}

/// The program with the given arguments.
pub open spec fn helper(program: Seq<char>, args: Seq<Seq<char>>) -> HelperView {
    HelperView { program, args }
}

/// The program with one or two arguments, or none.
fn make_helper(program: &str, first: Option<&str>, second: Option<&str>, third: Option<&str>) -> (r:
    Helper)
    ensures
        r@ == helper(
            program@,
            arg(first) + arg(second) + arg(third),
        ),
{
    let mut args: Vec<String> = Vec::new();
    if let Some(a) = first {
        args.push(copy_text(a));
    }
    if let Some(a) = second {
        args.push(copy_text(a));
    }
    if let Some(a) = third {
        args.push(copy_text(a));
    }
    assert(string_seqs(args@) =~= arg(first) + arg(second) + arg(third));
    Helper { program: copy_text(program), args }
}

/// An argument, where there is one.
pub open spec fn arg(a: Option<&str>) -> Seq<Seq<char>> {
    match a {
        Some(s) => seq![s@],
        None => Seq::empty(),
    }
}

/// Programs that take a text into the clipboard, in the order in which they are
/// tried: the first that starts is given the text.
pub fn clipboard_helpers() -> (r: Vec<Helper>)
    ensures
        helper_views(r@) == seq![
            helper("wl-copy"@, Seq::empty()),
            helper("xclip"@, seq!["-selection"@, "clipboard"@]),
            helper("pbcopy"@, Seq::empty()),
            helper("clip.exe"@, Seq::empty()),
        ],
{
    let mut r: Vec<Helper> = Vec::new();
    r.push(make_helper("wl-copy", None, None, None));
    r.push(make_helper("xclip", Some("-selection"), Some("clipboard"), None));
    r.push(make_helper("pbcopy", None, None, None));
    r.push(make_helper("clip.exe", None, None, None));
    proof {
        let none = Seq::<Seq<char>>::empty();
        assert(arg(None) + arg(None) + arg(None) =~= none);
        assert(arg(Some("-selection")) + arg(Some("clipboard")) + arg(None) =~= seq![
            "-selection"@,
            "clipboard"@,
        ]);
        assert(helper_views(r@) =~= seq![
            helper("wl-copy"@, none),
            helper("xclip"@, seq!["-selection"@, "clipboard"@]),
            helper("pbcopy"@, none),
            helper("clip.exe"@, none),
        ]);
    }
    r
}

/// Programs that open a link, in the order in which they are tried.
pub fn url_openers(url: &str) -> (r: Vec<Helper>)
    ensures
        helper_views(r@) == seq![
            helper("xdg-open"@, seq![url@]),
            helper("open"@, seq![url@]),
            helper("cmd"@, seq!["/c"@, "start"@, url@]),
        ],
{
    let mut r: Vec<Helper> = Vec::new();
    r.push(make_helper("xdg-open", Some(url), None, None));
    r.push(make_helper("open", Some(url), None, None));
    r.push(make_helper("cmd", Some("/c"), Some("start"), Some(url)));
    proof {
        assert(arg(Some(url)) + arg(None) + arg(None) =~= seq![url@]);
        assert(arg(Some("/c")) + arg(Some("start")) + arg(Some(url)) =~= seq![
            "/c"@,
            "start"@,
            url@,
        ]);
        assert(helper_views(r@) =~= seq![
            helper("xdg-open"@, seq![url@]),
            helper("open"@, seq![url@]),
            helper("cmd"@, seq!["/c"@, "start"@, url@]),
        ]);
    }
    r
}

/// What asks the terminal to take bytes into the clipboard.
pub open spec fn clipboard_request(bytes: Seq<u8>) -> Seq<char> {
    "\u{1b}]52;c;"@ + base64(bytes) + "\u{7}"@
}

/// What asks the terminal to take a text, given by its bytes, into the
/// clipboard.
pub fn clipboard_sequence(bytes: &[u8]) -> (r: String)
    ensures
        r@ == clipboard_request(bytes@),
{
    let mut s = copy_text("\u{1b}]52;c;");
    let encoded = base64_encode(bytes);
    s.push_str(encoded.as_str());
    s.push_str("\u{7}");
    s
}

/// What the terminal is asked to take is what was to be copied, byte for byte.
pub proof fn lemma_clipboard_holds(bytes: Seq<u8>)
    ensures
        ({
            let r = clipboard_request(bytes);
            &&& r.len() >= 8
            &&& r.take(7) == "\u{1b}]52;c;"@
            &&& r.last() == '\u{7}'
            &&& unbase64(r.subrange(7, r.len() - 1)) == bytes
        }),
{
    let r = clipboard_request(bytes);
    reveal_strlit("\u{1b}]52;c;");
    reveal_strlit("\u{7}");
    assert(r.take(7) =~= "\u{1b}]52;c;"@);
    assert(r.subrange(7, r.len() - 1) =~= base64(bytes));
    lemma_base64_round_trip(bytes);
}

} // verus!
