//! Footer hint lines shared by popups, as sequences of text and key spans.
//!
//! Key bindings are kept abstract (`K`): the renderer turns each into the
//! styled label of its key.
use vstd::prelude::*;

verus! {

/// A span of a hint line: plain text, or a key binding.
#[derive(Debug, PartialEq, Eq)]
pub enum HintSpan<K> {
    Text(String),
    Key(K),
}

/// A hint span with its text seen as characters.
pub enum HintPiece<K> {
    Text(Seq<char>),
    Key(K),
}

/// The view of a hint span.
pub open spec fn piece_of<K>(s: HintSpan<K>) -> HintPiece<K> {
    match s {
        HintSpan::Text(t) => HintPiece::Text(t@),
        HintSpan::Key(k) => HintPiece::Key(k),
    }
}

/// The views of a hint line.
pub open spec fn pieces_of<K>(s: Seq<HintSpan<K>>) -> Seq<HintPiece<K>> {
    s.map_values(|x: HintSpan<K>| piece_of(x))
}

/// "Press <accept> <accept_label> or <cancel> <cancel_label>", leaving out
/// the half whose key is missing; an empty line when both are.
pub open spec fn accept_cancel_pieces<K>(
    accept: Option<K>,
    accept_label: Seq<char>,
    cancel: Option<K>,
    cancel_label: Seq<char>,
) -> Seq<HintPiece<K>> {
    match (accept, cancel) {
        (Some(a), Some(c)) => seq![
            HintPiece::Text("Press "@),
            HintPiece::Key(a),
            HintPiece::Text(" "@ + accept_label + " or "@),
            HintPiece::Key(c),
            HintPiece::Text(" "@ + cancel_label),
        ],
        (Some(a), None) => seq![
            HintPiece::Text("Press "@),
            HintPiece::Key(a),
            HintPiece::Text(" "@ + accept_label),
        ],
        (None, Some(c)) => seq![
            HintPiece::Text("Press "@),
            HintPiece::Key(c),
            HintPiece::Text(" "@ + cancel_label),
        ],
        (None, None) => seq![],
    }
}

/// `" " + label`, with `suffix` after it.
fn spaced(label: &str, suffix: &str) -> (r: String)
    ensures
        r@ == " "@ + label@ + suffix@,
{
    let mut s: String = String::from_str(" ");
    s.append(label);
    s.append(suffix);
    s
}

/// The hint naming the keys that accept and cancel.
pub fn accept_cancel_hint_line<K>(
    accept: Option<K>,
    accept_label: &str,
    cancel: Option<K>,
    cancel_label: &str,
) -> (r: Vec<HintSpan<K>>)
    ensures
        pieces_of(r@) == accept_cancel_pieces(accept, accept_label@, cancel, cancel_label@),
{
    let mut v: Vec<HintSpan<K>> = Vec::new();
    match (accept, cancel) {
        (Some(a), Some(c)) => {
            v.push(HintSpan::Text(String::from_str("Press ")));
            v.push(HintSpan::Key(a));
            v.push(HintSpan::Text(spaced(accept_label, " or ")));
            v.push(HintSpan::Key(c));
            v.push(HintSpan::Text(spaced(cancel_label, "")));
        },
        (Some(a), None) => {
            v.push(HintSpan::Text(String::from_str("Press ")));
            v.push(HintSpan::Key(a));
            v.push(HintSpan::Text(spaced(accept_label, "")));
        },
        (None, Some(c)) => {
            v.push(HintSpan::Text(String::from_str("Press ")));
            v.push(HintSpan::Key(c));
            v.push(HintSpan::Text(spaced(cancel_label, "")));
        },
        (None, None) => {},
    }
    proof {
        reveal_strlit("");
        assert(" "@ + cancel_label@ + ""@ =~= " "@ + cancel_label@);
        assert(" "@ + accept_label@ + ""@ =~= " "@ + accept_label@);
    }
    assert(pieces_of(v@) =~= accept_cancel_pieces(accept, accept_label@, cancel, cancel_label@));
    v
}

/// The text before the accept key of the standard footer.
pub open spec fn navigate_text() -> Seq<char> {
    "\u{2191}/\u{2193} Navigate \u{b7} "@
}

/// The standard footer: navigate, accept, complete with `tab`, cancel.
pub open spec fn standard_pieces<K>(accept: K, tab: K, cancel: K) -> Seq<HintPiece<K>> {
    seq![
        HintPiece::Text(navigate_text()),
        HintPiece::Key(accept),
        HintPiece::Text(" Select \u{b7} "@),
        HintPiece::Key(tab),
        HintPiece::Text(" Complete \u{b7} "@),
        HintPiece::Key(cancel),
        HintPiece::Text(" to cancel"@),
    ]
}

/// The standard popup footer with the given accept, tab and cancel keys.
pub fn standard_popup_hint_line<K>(enter: K, tab: K, esc: K) -> (r: Vec<HintSpan<K>>)
    ensures
        pieces_of(r@) == standard_pieces(enter, tab, esc),
{
    let mut v: Vec<HintSpan<K>> = Vec::new();
    v.push(HintSpan::Text(String::from_str("\u{2191}/\u{2193} Navigate \u{b7} ")));
    v.push(HintSpan::Key(enter));
    v.push(HintSpan::Text(String::from_str(" Select \u{b7} ")));
    v.push(HintSpan::Key(tab));
    v.push(HintSpan::Text(String::from_str(" Complete \u{b7} ")));
    v.push(HintSpan::Key(esc));
    v.push(HintSpan::Text(String::from_str(" to cancel")));
    assert(pieces_of(v@) =~= standard_pieces(enter, tab, esc));
    v
}

/// The standard popup footer for a keymap: its primary accept and cancel
/// bindings where it has them, Enter and Esc otherwise.
pub fn standard_popup_hint_line_for_keymap<K>(
    accept: Option<K>,
    cancel: Option<K>,
    enter: K,
    tab: K,
    esc: K,
) -> (r: Vec<HintSpan<K>>)
    ensures
        pieces_of(r@) == standard_pieces(
            match accept {
                Some(a) => a,
                None => enter,
            },
            tab,
            match cancel {
                Some(c) => c,
                None => esc,
            },
        ),
{
    let accept_key: K = match accept {
        Some(a) => a,
        None => enter,
    };
    let cancel_key: K = match cancel {
        Some(c) => c,
        None => esc,
    };
    standard_popup_hint_line(accept_key, tab, cancel_key)
}

} // verus!
