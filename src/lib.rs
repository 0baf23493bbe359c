//! A single-pass transcoder from a small Markdown-like markup to HTML.
//!
//! The engine ([`Transcriber`]) reads one byte at a time, keeps the class of
//! the previous byte and a stack of open constructs, and writes HTML as it
//! goes. Its behaviour is given byte by byte by the transition function of
//! [`model`], and every executable function here is proved against it.
use vstd::prelude::*;

pub mod laws;
pub mod model;
pub mod transcriber;

pub use transcriber::Transcriber;

verus! {

/// Transcribes the whole of `input`, appending the HTML to `output`.
///
/// Fails with [`SamupError::Syntax`] exactly when the input holds a malformed
/// footnote marker (see [`model::run`]); otherwise every construct that was
/// opened is closed by the time this returns.
///
/// A paragraph opened by plain text at the start of the input has no line
/// break before it (`a` gives `<p>a</p>`). A construct opened by a delimiter
/// (`_`, `*`, `#`, `[`, `(`, ...) writes the line break that the start of
/// input stands for first (`_a` gives `\n<p><i>a</i></p>`), as it does after
/// any line break.
pub fn transcribe(input: &[u8], output: &mut Vec<u8>) -> (r: SamupResult)
    ensures
        r is Ok <==> model::run(input@) is Some,
        r is Err ==> r matches Err(SamupError::Syntax),
        r is Ok ==> final(output)@ == old(output)@ + model::render(input@)->Some_0,
{
    let mut transcriber = Transcriber::new();
    let mut buf: Vec<u8> = Vec::new();
    while transcriber.ix() < input.len()
        invariant
            transcriber.pos() <= input@.len(),
            transcriber.wf(),
            output@ == old(output)@,
            model::run(input@.subrange(0, transcriber.pos() as int)) == Some(transcriber.engine(buf@)),
        decreases input@.len() - transcriber.pos(),
    {
        let ghost i = transcriber.pos() as int;
        let r = transcriber.transcribe(input, &mut buf);
        proof {
            assert(input@.subrange(0, i + 1).drop_last() =~= input@.subrange(0, i));
        }
        if r.is_err() {
            proof {
                model::lemma_run_none_extends(input@, i + 1);
            }
            output.append(&mut buf);
            return r;
        }
    }
    proof {
        assert(input@.subrange(0, input@.len() as int) =~= input@);
    }
    let _ = transcriber.finish(&mut buf);
    output.append(&mut buf);
    Ok(())
}

/// Errors of a transcription.
#[derive(Debug)]
pub enum SamupError {
    /// The engine expected `expected` on top of its stack and found `got`.
    /// The dispatch is proved to match the stack, so the engine never
    /// produces it; it is kept for callers that match on errors.
    BadStack { expected: Tag, got: Tag },
    /// The engine expected `expected` on top of an empty stack; never
    /// produced, for the same reason as `BadStack`.
    ShortStack { expected: Tag },
    /// A malformed footnote marker: a digit right after the `]` that closed
    /// a marker, a line break inside `[^n` before its `]`, or an index too
    /// large for a `u64`.
    Syntax,
}

pub type SamupResult<T = ()> = Result<T, SamupError>;

/// The class of an input byte: what it may mean to the engine.
#[derive(Clone, Copy, Debug, PartialEq, Eq, Structural)]
pub enum C {
    Whitespace,
    Newline,
    Underscore,
    Asterisk,
    Octothorpe,
    Caret,
    Colon,
    SqBracketL,
    SqBracketR,
    ParenL,
    ParenR,
    Digit,
    Content,
}

/// The class of each byte.
pub open spec fn class_of(v: u8) -> C {
    if v == 32 || v == 9 {
        C::Whitespace
    } else if v == 10 || v == 13 {
        C::Newline
    } else if v == 95 {
        C::Underscore
    } else if v == 42 {
        C::Asterisk
    } else if v == 35 {
        C::Octothorpe
    } else if v == 94 {
        C::Caret
    } else if v == 58 {
        C::Colon
    } else if v == 91 {
        C::SqBracketL
    } else if v == 93 {
        C::SqBracketR
    } else if v == 40 {
        C::ParenL
    } else if v == 41 {
        C::ParenR
    } else if 48 <= v <= 57 {
        C::Digit
    } else {
        C::Content
    }
}

impl From<u8> for C {
    fn from(v: u8) -> (r: C)
        ensures
            r == class_of(v),
    {
        match v {
            32 | 9 => C::Whitespace,
            10 | 13 => C::Newline,
            95 => C::Underscore,
            42 => C::Asterisk,
            35 => C::Octothorpe,
            94 => C::Caret,
            58 => C::Colon,
            91 => C::SqBracketL,
            93 => C::SqBracketR,
            40 => C::ParenL,
            41 => C::ParenR,
            48..=57 => C::Digit,
            _ => C::Content,
        }
    }
}

impl vstd::std_specs::convert::FromSpecImpl<u8> for C {
    open spec fn obeys_from_spec() -> bool {
        true
    }

    open spec fn from_spec(v: u8) -> C {
        class_of(v)
    }
}

/// The index of a footnote, accumulated from decimal digits. It is kept in a
/// `u64`; a digit that would take it past `u64::MAX` is refused by the engine
/// as a malformed marker.
#[derive(Clone, Copy, Debug, PartialEq, Eq, Structural)]
pub struct FootNoteIx(u64);

impl FootNoteIx {
    pub closed spec fn view(&self) -> u64 {
        self.0
    }

    fn new(c: u8) -> (r: Self)
        requires
            is_digit(c),
        ensures
            r@ == c - 48,
    {
        Self(char_to_digit(c) as u64)
    }

    /// `index = index * 10 + digit`, where the result fits.
    fn push_digit(&mut self, c: u8)
        requires
            is_digit(c),
            push_index_digit(old(self)@, c) <= u64::MAX,
        ensures
            final(self)@ == push_index_digit(old(self)@, c),
    {
        let d: u8 = char_to_digit(c);
        self.0 = self.0 * 10 + d as u64;
    }

    fn ix(&self) -> (r: u64)
        ensures
            r == self@,
    {
        self.0
    }
}

/// `index * 10 + digit`.
pub open spec fn push_index_digit(ix: u64, c: u8) -> int {
    ix * 10 + (c - 48)
}

/// Whether appending the digit `c` to the index `ix` stays within a `u64`.
pub(crate) fn digit_fits(ix: u64, c: u8) -> (r: bool)
    requires
        is_digit(c),
    ensures
        r == (push_index_digit(ix, c) <= u64::MAX),
{
    match ix.checked_mul(10) {
        Some(m) => m.checked_add(char_to_digit(c) as u64).is_some(),
        None => false,
    }
}

/// The level of a heading, from 1 to 6.
#[derive(Clone, Copy, Debug, PartialEq, Eq, Structural)]
pub struct HLevel(u8);

impl HLevel {
    pub closed spec fn view(&self) -> u8 {
        self.0
    }

    fn new() -> (r: Self)
        ensures
            r@ == 1,
    {
        Self(1)
    }

    fn level(&self) -> (r: u8)
        ensures
            r == self@,
    {
        self.0
    }

    /// Raises the level by one unless it is already 6; tells whether it did.
    fn inc_level(&mut self) -> (r: bool)
        ensures
            r == (old(self)@ < 6),
            final(self)@ == if old(self)@ < 6 {
                (old(self)@ + 1) as u8
            } else {
                old(self)@
            },
    {
        if self.0 < 6 {
            self.0 += 1;
            true
        } else {
            false
        }
    }
}

/// Whether a link is still reading its target (`[url`) or, after `](`, its
/// visible text.
#[derive(Copy, Clone, Debug, PartialEq, Eq, Structural)]
pub enum LinkState {
    Link,
    Label,
}

#[derive(Clone, Debug, PartialEq, Eq)]
pub struct InnerLink {
    state: LinkState,
    url: Vec<u8>,
}

/// A construct that has been opened and not yet closed.
#[derive(Clone, Debug, PartialEq, Eq)]
pub enum Tag {
    H(HLevel),
    I,
    P,
    Strong,
    Link(InnerLink),
    /// A footnote reference, `[^n]`.
    FootNoteLink(FootNoteIx),
    /// A footnote definition, `[^n]:`.
    FootNoteRef(FootNoteIx),
}

impl Tag {
    pub closed spec fn view(&self) -> model::TagM {
        match self {
            Tag::H(n) => model::TagM::H(n@),
            Tag::I => model::TagM::I,
            Tag::P => model::TagM::P,
            Tag::Strong => model::TagM::Strong,
            Tag::Link(l) => model::TagM::Link(l.state, l.url@),
            Tag::FootNoteLink(n) => model::TagM::FnLink(n@),
            Tag::FootNoteRef(n) => model::TagM::FnRef(n@),
        }
    }

    /// The construct as text, for messages: `<h2>`, `<link: url Label>`,
    /// `<footnote ref 3>`.
    pub fn describe(&self) -> (r: Vec<u8>)
        ensures
            r@ == model::tag_text(self@),
    {
        let mut r: Vec<u8> = Vec::new();
        match self {
            Tag::H(n) => {
                emit(&mut r, "<h".as_bytes());
                emit_decimal(&mut r, n.level() as u64);
                emit(&mut r, ">".as_bytes());
            },
            Tag::I => emit(&mut r, "<i>".as_bytes()),
            Tag::P => emit(&mut r, "<p>".as_bytes()),
            Tag::Strong => emit(&mut r, "<strong>".as_bytes()),
            Tag::Link(l) => {
                emit(&mut r, "<link: ".as_bytes());
                emit(&mut r, l.url.as_slice());
                match l.state {
                    LinkState::Link => emit(&mut r, " Link>".as_bytes()),
                    LinkState::Label => emit(&mut r, " Label>".as_bytes()),
                }
            },
            Tag::FootNoteLink(n) => {
                emit(&mut r, "<footnote link ".as_bytes());
                emit_decimal(&mut r, n.ix());
                emit(&mut r, ">".as_bytes());
            },
            Tag::FootNoteRef(n) => {
                emit(&mut r, "<footnote ref ".as_bytes());
                emit_decimal(&mut r, n.ix());
                emit(&mut r, ">".as_bytes());
            },
        }
        assert(r@ =~= model::tag_text(self@));
        r
    }

    /// Writes the opening fragment of the construct.
    fn write_open(&self, output: &mut Vec<u8>)
        requires
            model::tag_wf(self@),
        ensures
            final(output)@ == old(output)@ + model::open_html(self@),
    {
        match self {
            Tag::H(n) => {
                emit(output, "<h".as_bytes());
                output.push(48 + n.level());
                emit(output, ">".as_bytes());
            },
            Tag::I => emit(output, "<i>".as_bytes()),
            Tag::P => emit(output, "<p>".as_bytes()),
            Tag::Strong => emit(output, "<strong>".as_bytes()),
            Tag::Link(l) => {
                emit(output, "<a href=\"".as_bytes());
                emit(output, l.url.as_slice());
                emit(output, "\" target=\"_blank\">".as_bytes());
            },
            Tag::FootNoteLink(_) => {},
            Tag::FootNoteRef(n) => {
                emit(output, "<p class=\"footnote\" id=\"ref-".as_bytes());
                emit_decimal(output, n.ix());
                emit(output, "\"><span class=\"footnote\">".as_bytes());
                emit_decimal(output, n.ix());
                emit(output, ":</span> ".as_bytes());
            },
        }
        assert(final(output)@ =~= old(output)@ + model::open_html(self@));
    }

    /// Writes the closing fragment of the construct. A link that never got a
    /// label is written whole, its target serving as its text.
    fn write_close(&self, output: &mut Vec<u8>)
        requires
            model::tag_wf(self@),
        ensures
            final(output)@ == old(output)@ + model::close_html(self@),
    {
        match self {
            Tag::H(n) => {
                emit(output, "</h".as_bytes());
                output.push(48 + n.level());
                emit(output, ">".as_bytes());
            },
            Tag::I => emit(output, "</i>".as_bytes()),
            Tag::P => emit(output, "</p>".as_bytes()),
            Tag::Strong => emit(output, "</strong>".as_bytes()),
            Tag::Link(l) => {
                match l.state {
                    LinkState::Link => {
                        self.write_open(output);
                        emit(output, l.url.as_slice());
                    },
                    LinkState::Label => {},
                }
                emit(output, "</a>".as_bytes());
            },
            Tag::FootNoteLink(n) => {
                emit(output, "<a id=\"link-".as_bytes());
                emit_decimal(output, n.ix());
                emit(output, "\" target=\"#ref-".as_bytes());
                emit_decimal(output, n.ix());
                emit(output, "\"><sup>".as_bytes());
                emit_decimal(output, n.ix());
                emit(output, "</sup></a>".as_bytes());
            },
            Tag::FootNoteRef(n) => {
                emit(output, "<a href=\"#link-".as_bytes());
                emit_decimal(output, n.ix());
                emit(output, "\">\u{1f519}</a></p>".as_bytes());
            },
        }
        assert(final(output)@ =~= old(output)@ + model::close_html(self@));
    }

    /// Writes what the end of input leaves of a construct still open.
    fn write_drain(&self, output: &mut Vec<u8>)
        requires
            model::tag_wf(self@),
        ensures
            final(output)@ == old(output)@ + model::drain_html(self@),
    {
        match self {
            Tag::Link(l) => {
                match l.state {
                    LinkState::Link => {
                        emit(output, "[".as_bytes());
                        emit(output, l.url.as_slice());
                    },
                    LinkState::Label => self.write_close(output),
                }
            },
            Tag::FootNoteLink(n) => {
                emit(output, "[^".as_bytes());
                emit_decimal(output, n.ix());
                emit(output, "]".as_bytes());
            },
            _ => self.write_close(output),
        }
        assert(final(output)@ =~= old(output)@ + model::drain_html(self@));
    }

    fn new_link(c: u8) -> (r: Self)
        ensures
            r@ == model::TagM::Link(LinkState::Link, seq![c]),
    {
        let mut url: Vec<u8> = Vec::new();
        url.push(c);
        Tag::Link(InnerLink { url, state: LinkState::Link })
    }

    /// Appends a byte to the target of a link that is still reading it.
    fn push_link(&mut self, c: u8)
        requires
            old(self)@ matches model::TagM::Link(LinkState::Link, _),
        ensures
            final(self)@ == model::TagM::Link(LinkState::Link, old(self)@->Link_1.push(c)),
    {
        match self {
            Tag::Link(l) => l.url.push(c),
            _ => {},
        }
    }

    /// Ends the target of a link: what follows is its label.
    fn end_url(&mut self)
        requires
            old(self)@ matches model::TagM::Link(LinkState::Link, _),
        ensures
            final(self)@ == model::TagM::Link(LinkState::Label, old(self)@->Link_1),
    {
        match self {
            Tag::Link(l) => l.state = LinkState::Label,
            _ => {},
        }
    }

    fn new_h() -> (r: Self)
        ensures
            r@ == model::TagM::H(1),
    {
        Tag::H(HLevel::new())
    }

    /// Raises a heading's level, up to 6; tells whether it did.
    fn inc_h(&mut self) -> (r: bool)
        requires
            old(self)@ matches model::TagM::H(_),
        ensures
            r == (old(self)@->H_0 < 6),
            final(self)@ == model::TagM::H(
                if r {
                    (old(self)@->H_0 + 1) as u8
                } else {
                    old(self)@->H_0
                },
            ),
    {
        match self {
            Tag::H(n) => n.inc_level(),
            _ => false,
        }
    }

    fn new_fn_link(c: u8) -> (r: Self)
        requires
            is_digit(c),
        ensures
            r@ == model::TagM::FnLink((c - 48) as u64),
    {
        Tag::FootNoteLink(FootNoteIx::new(c))
    }

    /// Appends a decimal digit to a footnote reference's index. Only a
    /// reference (`[^n`) grows: a definition's index is complete at its `]:`.
    fn push_fn_digit(&mut self, c: u8)
        requires
            is_digit(c),
            old(self)@ matches model::TagM::FnLink(_),
            push_index_digit(old(self)@->FnLink_0, c) <= u64::MAX,
        ensures
            final(self)@ == model::TagM::FnLink(
                push_index_digit(old(self)@->FnLink_0, c) as u64,
            ),
    {
        match self {
            Tag::FootNoteLink(n) => n.push_digit(c),
            _ => {},
        }
    }
}

pub open spec fn is_digit(c: u8) -> bool {
    48 <= c <= 57
}

/// The value of an ASCII decimal digit.
pub fn char_to_digit(c: u8) -> (r: u8)
    requires
        is_digit(c),
    ensures
        r == c - 48,
        r < 10,
{
    c - 48
}

/// Appends `s` to `out`.
pub(crate) fn emit(out: &mut Vec<u8>, s: &[u8])
    ensures
        final(out)@ == old(out)@ + s@,
{
    let mut i: usize = 0;
    while i < s.len()
        invariant
            i <= s@.len(),
            out@ == old(out)@ + s@.subrange(0, i as int),
        decreases s@.len() - i,
    {
        out.push(s[i]);
        i += 1;
        assert(s@.subrange(0, i as int) =~= s@.subrange(0, i - 1) + seq![s@[i - 1]]);
    }
    assert(s@.subrange(0, s@.len() as int) =~= s@);
}

/// Appends the decimal digits of `n`.
pub(crate) fn emit_decimal(out: &mut Vec<u8>, n: u64)
    ensures
        final(out)@ == old(out)@ + model::decimal(n as nat),
    decreases n,
{
    let ghost start = out@;
    if n >= 10 {
        emit_decimal(out, n / 10);
    }
    out.push(48 + (n % 10) as u8);
    assert(final(out)@ =~= start + model::decimal(n as nat));
}

} // verus!
