//! The engine as a mathematical object: its state, what one input byte does
//! to it, and what the end of input does.
use vstd::prelude::*;
use vstd::string::StringSliceAdditionalSpecFns;

use crate::{class_of, push_index_digit, LinkState, C};

verus! {

/// What an open construct is, as plain values.
pub enum TagM {
    H(u8),
    I,
    P,
    Strong,
    Link(LinkState, Seq<u8>),
    FnLink(u64),
    FnRef(u64),
}

pub open spec fn tag_wf(t: TagM) -> bool {
    match t {
        TagM::H(l) => 1 <= l <= 6,
        _ => true,
    }
}

pub open spec fn stack_wf(s: Seq<TagM>) -> bool {
    forall|i: int| 0 <= i < s.len() ==> tag_wf(#[trigger] s[i])
}

/// The state of the engine: the class recorded for the last byte, the open
/// constructs (innermost first), and everything written so far.
pub struct Engine {
    pub prev: C,
    pub stack: Seq<TagM>,
    pub out: Seq<u8>,
}

/// The decimal digits of `n`.
pub open spec fn decimal(n: nat) -> Seq<u8>
    decreases n,
{
    if n < 10 {
        seq![(48 + n) as u8]
    } else {
        decimal(n / 10) + seq![(48 + n % 10) as u8]
    }
}

pub open spec fn open_html(t: TagM) -> Seq<u8> {
    match t {
        TagM::H(l) => "<h".spec_bytes() + seq![(48 + l) as u8] + ">".spec_bytes(),
        TagM::I => "<i>".spec_bytes(),
        TagM::P => "<p>".spec_bytes(),
        TagM::Strong => "<strong>".spec_bytes(),
        TagM::Link(_, url) => "<a href=\"".spec_bytes() + url + "\" target=\"_blank\">".spec_bytes(),
        TagM::FnLink(_) => Seq::empty(),
        TagM::FnRef(n) => "<p class=\"footnote\" id=\"ref-".spec_bytes() + decimal(n as nat)
            + "\"><span class=\"footnote\">".spec_bytes() + decimal(n as nat)
            + ":</span> ".spec_bytes(),
    }
}

pub open spec fn close_html(t: TagM) -> Seq<u8> {
    match t {
        TagM::H(l) => "</h".spec_bytes() + seq![(48 + l) as u8] + ">".spec_bytes(),
        TagM::I => "</i>".spec_bytes(),
        TagM::P => "</p>".spec_bytes(),
        TagM::Strong => "</strong>".spec_bytes(),
        TagM::Link(LinkState::Link, url) => open_html(t) + url + "</a>".spec_bytes(),
        TagM::Link(LinkState::Label, _) => "</a>".spec_bytes(),
        TagM::FnLink(n) => "<a id=\"link-".spec_bytes() + decimal(n as nat)
            + "\" target=\"#ref-".spec_bytes() + decimal(n as nat) + "\"><sup>".spec_bytes()
            + decimal(n as nat) + "</sup></a>".spec_bytes(),
        TagM::FnRef(n) => "<a href=\"#link-".spec_bytes() + decimal(n as nat)
            + "\">\u{1f519}</a></p>".spec_bytes(),
    }
}

/// A construct as text, for messages.
pub open spec fn tag_text(t: TagM) -> Seq<u8> {
    match t {
        TagM::H(l) => "<h".spec_bytes() + decimal(l as nat) + ">".spec_bytes(),
        TagM::I => "<i>".spec_bytes(),
        TagM::P => "<p>".spec_bytes(),
        TagM::Strong => "<strong>".spec_bytes(),
        TagM::Link(state, url) => "<link: ".spec_bytes() + url + match state {
            LinkState::Link => " Link>".spec_bytes(),
            LinkState::Label => " Label>".spec_bytes(),
        },
        TagM::FnLink(n) => "<footnote link ".spec_bytes() + decimal(n as nat) + ">".spec_bytes(),
        TagM::FnRef(n) => "<footnote ref ".spec_bytes() + decimal(n as nat) + ">".spec_bytes(),
    }
}

/// What the end of input writes for a construct still open: a link that
/// never got its `]`, or a footnote reference never resolved, is written
/// back as the text it consumed; anything else is closed.
pub open spec fn drain_html(t: TagM) -> Seq<u8> {
    match t {
        TagM::Link(LinkState::Link, url) => "[".spec_bytes() + url,
        TagM::FnLink(n) => "[^".spec_bytes() + decimal(n as nat) + "]".spec_bytes(),
        _ => close_html(t),
    }
}

pub open spec fn drain_out(s: Seq<TagM>) -> Seq<u8>
    decreases s.len(),
{
    if s.len() == 0 {
        Seq::empty()
    } else {
        drain_html(s[0]) + drain_out(s.drop_first())
    }
}

// Elementary moves of the engine.
pub open spec fn top(e: Engine) -> Option<TagM> {
    if e.stack.len() > 0 {
        Some(e.stack[0])
    } else {
        None
    }
}

pub open spec fn emit(e: Engine, s: Seq<u8>) -> Engine {
    Engine { prev: e.prev, stack: e.stack, out: e.out + s }
}

pub open spec fn push(e: Engine, t: TagM) -> Engine {
    Engine { prev: e.prev, stack: seq![t] + e.stack, out: e.out }
}

pub open spec fn pop(e: Engine) -> Engine {
    Engine { prev: e.prev, stack: e.stack.drop_first(), out: e.out }
}

pub open spec fn set_top(e: Engine, t: TagM) -> Engine {
    Engine { prev: e.prev, stack: seq![t] + e.stack.drop_first(), out: e.out }
}

pub open spec fn with_prev(e: Engine, c: C) -> Engine {
    Engine { prev: c, stack: e.stack, out: e.out }
}

/// Writes the top construct's closing fragment and removes it.
pub open spec fn close_top(e: Engine) -> Engine {
    emit(pop(e), close_html(e.stack[0]))
}

/// Writes a construct's opening fragment and pushes it.
pub open spec fn open_tag(e: Engine, t: TagM) -> Engine {
    push(emit(e, open_html(t)), t)
}

/// Opens a paragraph when nothing is open.
pub open spec fn ensure_block(e: Engine) -> Engine {
    if e.stack.len() == 0 {
        open_tag(e, TagM::P)
    } else {
        e
    }
}

/// Writes literal text, inside a paragraph when nothing else is open.
pub open spec fn text(e: Engine, s: Seq<u8>) -> Engine {
    emit(ensure_block(e), s)
}

/// A heading is open: it is the outermost construct.
pub open spec fn in_heading(e: Engine) -> bool {
    e.stack.len() > 0 && e.stack.last() is H
}

/// The line break that a new line's text brings: it ends a heading, with
/// whatever is open inside it, and is written unless nothing is open.
pub open spec fn line_lead(e: Engine) -> Engine {
    if in_heading(e) {
        emit(drain_all(e), "\n".spec_bytes())
    } else if e.stack.len() > 0 {
        emit(e, "\n".spec_bytes())
    } else {
        e
    }
}

/// Settles what the previous byte left pending, when the byte that follows
/// gives it no other meaning.
pub open spec fn resolve(e: Engine) -> Engine {
    match e.prev {
        C::Newline => if in_heading(e) {
            emit(drain_all(e), "\n".spec_bytes())
        } else {
            emit(e, "\n".spec_bytes())
        },
        C::Underscore => if top(e) == Some(TagM::I) {
            close_top(e)
        } else {
            text(e, "_".spec_bytes())
        },
        C::Asterisk => if top(e) == Some(TagM::Strong) {
            close_top(e)
        } else {
            text(e, "*".spec_bytes())
        },
        C::Octothorpe => if top(e) matches Some(TagM::H(_)) {
            emit(e, open_html(e.stack[0]))
        } else {
            e
        },
        C::Colon => if top(e) matches Some(TagM::FnRef(_)) {
            emit(e, open_html(e.stack[0]))
        } else {
            e
        },
        C::Caret => text(e, "[^".spec_bytes()),
        C::SqBracketL => text(e, "[".spec_bytes()),
        C::SqBracketR => if top(e) matches Some(TagM::Link(LinkState::Link, _)) || top(e) matches Some(
            TagM::FnLink(_),
        ) {
            emit(ensure_block(pop(e)), close_html(e.stack[0]))
        } else {
            e
        },
        C::Digit => if top(e) matches Some(TagM::FnLink(_)) {
            emit(text(pop(e), "[^".spec_bytes()), decimal(e.stack[0]->FnLink_0 as nat))
        } else {
            e
        },
        _ => e,
    }
}

/// The top is a link still reading its target, and its `]` has not come.
pub open spec fn reading_url(e: Engine) -> bool {
    top(e) matches Some(TagM::Link(LinkState::Link, _)) && e.prev != C::SqBracketR
}

/// A byte while a link reads its target.
pub open spec fn step_url(e: Engine, b: u8) -> Engine {
    let url = e.stack[0]->Link_1;
    if class_of(b) == C::SqBracketR {
        with_prev(e, C::SqBracketR)
    } else if class_of(b) == C::SqBracketL {
        with_prev(emit(text(pop(e), "[".spec_bytes()), url), C::SqBracketL)
    } else {
        with_prev(set_top(e, TagM::Link(LinkState::Link, url.push(b))), C::Content)
    }
}

/// A space or tab settles what is pending and is copied; right after a
/// heading's `#` run, or the `:` of a footnote definition, it only opens that
/// construct.
pub open spec fn step_whitespace(e: Engine, b: u8) -> Engine {
    if e.prev == C::Octothorpe || e.prev == C::Colon {
        with_prev(resolve(e), C::Whitespace)
    } else {
        with_prev(emit(resolve(e), seq![b]), C::Whitespace)
    }
}

/// A line break is held back until the next byte. A second one in a row, a
/// blank line, ends everything that is open (the paragraph, heading or
/// footnote definition, and what is open inside it) and is written.
pub open spec fn step_newline(e: Engine) -> Option<Engine> {
    if e.prev == C::Digit && top(e) matches Some(TagM::FnLink(_)) {
        None
    } else if e.prev == C::Newline {
        if e.stack.len() > 0 {
            Some(emit(drain_all(e), "\n".spec_bytes()))
        } else {
            Some(e)
        }
    } else {
        Some(with_prev(resolve(e), C::Newline))
    }
}

/// `_` and `*` (`delim` is the byte, `c` its class, `t` its construct): a
/// doubled delimiter is one literal character. One right after text waits for
/// what follows: before text it is literal, before anything else it closes
/// its construct if that is on top and is literal otherwise. Anywhere else it
/// opens its construct.
pub open spec fn step_emphasis(e: Engine, c: C, delim: Seq<u8>, t: TagM) -> Engine {
    if e.prev == c {
        with_prev(text(e, delim), C::Content)
    } else if e.prev == C::Content {
        with_prev(e, c)
    } else {
        with_prev(open_tag(ensure_block(resolve(e)), t), C::Content)
    }
}

/// At the start of a line `#` ends whatever is open and starts a heading;
/// each further `#` raises its level, up to 6, past which `#` is text.
/// Elsewhere it is text.
pub open spec fn step_octothorpe(e: Engine) -> Engine {
    if e.prev == C::Newline {
        with_prev(push(emit(drain_all(e), "\n".spec_bytes()), TagM::H(1)), C::Octothorpe)
    } else if e.prev == C::Octothorpe && top(e) matches Some(TagM::H(_)) {
        let l = e.stack[0]->H_0;
        if l < 6 {
            with_prev(set_top(e, TagM::H((l + 1) as u8)), C::Octothorpe)
        } else {
            with_prev(emit(emit(e, open_html(e.stack[0])), "#".spec_bytes()), C::Content)
        }
    } else {
        with_prev(text(resolve(e), "#".spec_bytes()), C::Content)
    }
}

/// `^` right after `[` starts a footnote marker; elsewhere it is text.
pub open spec fn step_caret(e: Engine) -> Engine {
    if e.prev == C::SqBracketL {
        with_prev(e, C::Caret)
    } else {
        with_prev(text(resolve(e), "^".spec_bytes()), C::Content)
    }
}

/// `:` right after the `]` of a footnote marker makes it a footnote
/// definition; elsewhere it is text.
pub open spec fn step_colon(e: Engine) -> Engine {
    if e.prev == C::SqBracketR && top(e) matches Some(TagM::FnLink(_)) {
        with_prev(set_top(e, TagM::FnRef(e.stack[0]->FnLink_0)), C::Colon)
    } else {
        with_prev(text(resolve(e), ":".spec_bytes()), C::Content)
    }
}

/// `]` ends the digits of a footnote marker; elsewhere it is text (the `]`
/// of a link is read by `step_url`).
pub open spec fn step_sq_bracket_r(e: Engine) -> Engine {
    if e.prev == C::Digit && top(e) matches Some(TagM::FnLink(_)) {
        with_prev(e, C::SqBracketR)
    } else {
        with_prev(text(resolve(e), "]".spec_bytes()), C::Content)
    }
}

/// `(` right after a link's `]` writes the anchor's opening and turns to
/// its label; elsewhere it is text.
pub open spec fn step_paren_l(e: Engine) -> Engine {
    if e.prev == C::SqBracketR && top(e) matches Some(TagM::Link(LinkState::Link, _)) {
        let url = e.stack[0]->Link_1;
        with_prev(
            set_top(emit(e, open_html(e.stack[0])), TagM::Link(LinkState::Label, url)),
            C::ParenL,
        )
    } else {
        with_prev(text(resolve(e), "(".spec_bytes()), C::ParenL)
    }
}

/// `)` ends a link's label; elsewhere it is text.
pub open spec fn step_paren_r(e: Engine) -> Engine {
    let r = resolve(e);
    if top(r) matches Some(TagM::Link(LinkState::Label, _)) {
        with_prev(close_top(r), C::Content)
    } else {
        with_prev(text(r, ")".spec_bytes()), C::Content)
    }
}

/// A digit after `[^` starts a footnote index and after an index digit
/// extends it (`index * 10 + digit`); right after the `]` of a marker, or
/// where the index would pass `u64::MAX`, it is an error. Elsewhere it is
/// text.
pub open spec fn step_digit(e: Engine, b: u8) -> Option<Engine> {
    if e.prev == C::Caret {
        Some(with_prev(push(e, TagM::FnLink((b - 48) as u64)), C::Digit))
    } else if e.prev == C::Digit && top(e) matches Some(TagM::FnLink(_)) {
        if push_index_digit(e.stack[0]->FnLink_0, b) <= u64::MAX {
            Some(
                with_prev(
                    set_top(e, TagM::FnLink(push_index_digit(e.stack[0]->FnLink_0, b) as u64)),
                    C::Digit,
                ),
            )
        } else {
            None
        }
    } else if e.prev == C::SqBracketR && top(e) matches Some(TagM::FnLink(_)) {
        None
    } else {
        Some(step_content(e, b))
    }
}

/// Text: after `[` it starts a link's target; after a line break it first
/// writes that break (ending a heading); after a waiting `_` or `*` it
/// writes that delimiter as text first.
pub open spec fn step_content(e: Engine, b: u8) -> Engine {
    if e.prev == C::SqBracketL {
        with_prev(push(ensure_block(e), TagM::Link(LinkState::Link, seq![b])), C::Content)
    } else if e.prev == C::Newline {
        with_prev(text(line_lead(e), seq![b]), C::Content)
    } else if e.prev == C::Underscore {
        with_prev(text(text(e, "_".spec_bytes()), seq![b]), C::Content)
    } else if e.prev == C::Asterisk {
        with_prev(text(text(e, "*".spec_bytes()), seq![b]), C::Content)
    } else {
        with_prev(text(resolve(e), seq![b]), C::Content)
    }
}

/// What one input byte does; `None` is a malformed footnote marker.
#[verifier::opaque]
pub open spec fn step(e: Engine, b: u8) -> Option<Engine> {
    if reading_url(e) {
        Some(step_url(e, b))
    } else {
        match class_of(b) {
            C::Whitespace => Some(step_whitespace(e, b)),
            C::Newline => step_newline(e),
            C::Underscore => Some(step_emphasis(e, C::Underscore, "_".spec_bytes(), TagM::I)),
            C::Asterisk => Some(step_emphasis(e, C::Asterisk, "*".spec_bytes(), TagM::Strong)),
            C::Octothorpe => Some(step_octothorpe(e)),
            C::Caret => Some(step_caret(e)),
            C::Colon => Some(step_colon(e)),
            C::SqBracketL => Some(with_prev(resolve(e), C::SqBracketL)),
            C::SqBracketR => Some(step_sq_bracket_r(e)),
            C::ParenL => Some(step_paren_l(e)),
            C::ParenR => Some(step_paren_r(e)),
            C::Digit => step_digit(e, b),
            C::Content => Some(step_content(e, b)),
        }
    }
}

/// Ends every open construct, innermost first, as the end of input does.
pub open spec fn drain_all(e: Engine) -> Engine {
    Engine { prev: e.prev, stack: Seq::empty(), out: e.out + drain_out(e.stack) }
}

/// The end of input: what the last byte left pending is settled as if
/// whitespace had followed (a pending line break writes nothing), then every
/// open construct is drained.
pub open spec fn finish(e: Engine) -> Engine {
    if e.prev == C::Newline {
        drain_all(e)
    } else {
        drain_all(resolve(e))
    }
}

/// The engine before any input: as if just after a line break.
pub open spec fn initial() -> Engine {
    Engine { prev: C::Newline, stack: Seq::empty(), out: Seq::empty() }
}

/// The engine after reading `input` from state `e`, or `None` if a byte of
/// it is a syntax error.
pub open spec fn run_from(e: Engine, input: Seq<u8>) -> Option<Engine>
    decreases input.len(),
{
    if input.len() == 0 {
        Some(e)
    } else {
        match run_from(e, input.drop_last()) {
            Some(x) => step(x, input.last()),
            None => None,
        }
    }
}

/// The engine after `input`, from the start.
pub open spec fn run(input: Seq<u8>) -> Option<Engine> {
    run_from(initial(), input)
}

/// The inputs on which a step fails: a line break inside `[^n` before its
/// `]`, a digit right after the `]` of `[^n]`, and a digit that would take
/// the index of `[^n` past `u64::MAX`.
pub open spec fn footnote_violation(e: Engine, b: u8) -> bool {
    &&& top(e) matches Some(TagM::FnLink(_))
    &&& {
        ||| class_of(b) == C::Newline && e.prev == C::Digit
        ||| class_of(b) == C::Digit && e.prev == C::SqBracketR
        ||| class_of(b) == C::Digit && e.prev == C::Digit && push_index_digit(
            e.stack[0]->FnLink_0,
            b,
        ) > u64::MAX
    }
}

/// The whole HTML for `input`, or `None` on a syntax error.
pub open spec fn render(input: Seq<u8>) -> Option<Seq<u8>> {
    match run(input) {
        Some(e) => Some(finish(e).out),
        None => None,
    }
}

/// Once a prefix is an error, so is every longer input.
pub proof fn lemma_run_none_extends(input: Seq<u8>, n: int)
    requires
        0 <= n <= input.len(),
        run(input.subrange(0, n)) is None,
    ensures
        run(input) is None,
    decreases input.len() - n,
{
    if n < input.len() {
        assert(input.subrange(0, n + 1).drop_last() =~= input.subrange(0, n));
        lemma_run_none_extends(input, n + 1);
    } else {
        assert(input.subrange(0, n) =~= input);
    }
}

} // verus!
