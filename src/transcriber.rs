//! The engine: one byte in, some HTML out.
use std::collections::VecDeque;
use vstd::prelude::*;
use vstd::string::StringSliceAdditionalSpecFns;

use crate::model::{self, stack_wf, tag_wf, Engine, TagM};
use crate::{digit_fits, emit, emit_decimal, is_digit, push_index_digit, LinkState, SamupError, SamupResult, Tag, C};

verus! {

/// What is on top of the stack, without the link's buffer.
#[derive(Clone, Copy, PartialEq, Eq, Structural)]
enum Top {
    Empty,
    H(u8),
    I,
    P,
    Strong,
    Url,
    Label,
    FnLink(u64),
    FnRef(u64),
}

spec fn top_of(s: Seq<TagM>) -> Top {
    if s.len() == 0 {
        Top::Empty
    } else {
        match s[0] {
            TagM::H(l) => Top::H(l),
            TagM::I => Top::I,
            TagM::P => Top::P,
            TagM::Strong => Top::Strong,
            TagM::Link(LinkState::Link, _) => Top::Url,
            TagM::Link(LinkState::Label, _) => Top::Label,
            TagM::FnLink(n) => Top::FnLink(n),
            TagM::FnRef(n) => Top::FnRef(n),
        }
    }
}

/// A transcription in progress: the position in the input, the class
/// recorded for the last byte, and the open constructs, innermost first.
#[derive(Debug)]
pub struct Transcriber {
    ix: usize,
    prev_c: C,
    tag_stack: VecDeque<Tag>,
}

/// Appends one byte to `out`.
fn emit_byte(out: &mut Vec<u8>, b: u8)
    ensures
        final(out)@ == old(out)@ + seq![b],
{
    out.push(b);
    assert(final(out)@ =~= old(out)@ + seq![b]);
}

impl Transcriber {
    pub closed spec fn stack_model(&self) -> Seq<TagM> {
        self.tag_stack@.map_values(|t: Tag| t@)
    }

    pub closed spec fn prev(&self) -> C {
        self.prev_c
    }

    /// The engine's state, given what has been written so far.
    pub open spec fn engine(&self, out: Seq<u8>) -> Engine {
        Engine { prev: self.prev(), stack: self.stack_model(), out }
    }

    pub closed spec fn wf(&self) -> bool {
        stack_wf(self.stack_model())
    }

    /// How many bytes of the input have been read.
    pub closed spec fn pos(&self) -> nat {
        self.ix as nat
    }

    pub fn ix(&self) -> (r: usize)
        ensures
            r == self.pos(),
    {
        self.ix
    }

    pub fn new() -> (r: Self)
        ensures
            r.pos() == 0,
            r.wf(),
            forall|o: Seq<u8>| #[trigger] r.engine(o) == (Engine { out: o, ..model::initial() }),
    {
        let r = Self { ix: 0, prev_c: C::Newline, tag_stack: VecDeque::new() };
        assert(r.stack_model() =~= Seq::empty());
        r
    }

    /// Reads the byte at `self.ix` and advances past it. On a malformed
    /// footnote marker it fails and changes nothing.
    pub fn transcribe(&mut self, input: &[u8], output: &mut Vec<u8>) -> (r: SamupResult)
        requires
            old(self).wf(),
            old(self).pos() < input@.len(),
        ensures
            match model::step(old(self).engine(old(output)@), input@[old(self).pos() as int]) {
                Some(e) => {
                    &&& r is Ok
                    &&& final(self).wf()
                    &&& final(self).pos() == old(self).pos() + 1
                    &&& final(self).engine(final(output)@) == e
                },
                None => {
                    &&& r matches Err(SamupError::Syntax)
                    &&& final(self).wf()
                    &&& final(self).pos() == old(self).pos()
                    &&& final(self).engine(final(output)@) == old(self).engine(old(output)@)
                },
            },
    {
        proof {
            reveal(model::step);
        }
        let curr_char: u8 = input[self.ix];
        let curr_c = C::from(curr_char);
        let top = self.peek();
        if top == Top::Url && self.prev_c != C::SqBracketR {
            self.transcribe_url(curr_char, output);
        } else {
            match curr_c {
                C::Whitespace => self.transcribe_whitespace(curr_char, output),
                C::Newline => {
                    if self.prev_c == C::Digit && top matches Top::FnLink(_) {
                        return Err(SamupError::Syntax);
                    }
                    self.transcribe_newline(output);
                },
                C::Underscore => self.transcribe_underscore(output),
                C::Asterisk => self.transcribe_asterisk(output),
                C::Octothorpe => self.transcribe_octothorpe(output),
                C::Caret => self.transcribe_caret(output),
                C::Colon => self.transcribe_colon(output),
                C::SqBracketL => self.transcribe_sq_bracket_l(output),
                C::SqBracketR => self.transcribe_sq_bracket_r(output),
                C::ParenL | C::ParenR => self.transcribe_paren(curr_c, output),
                C::Digit => {
                    if self.prev_c == C::SqBracketR && top matches Top::FnLink(_) {
                        return Err(SamupError::Syntax);
                    }
                    if let Top::FnLink(n) = top {
                        if self.prev_c == C::Digit && !digit_fits(n, curr_char) {
                            return Err(SamupError::Syntax);
                        }
                    }
                    self.transcribe_digit(curr_char, output);
                },
                C::Content => self.transcribe_content(curr_char, output),
            }
        }
        self.ix += 1;
        Ok(())
    }

    /// Ends the transcription: settles what the last byte left pending, then
    /// closes (or writes back as text) every construct still open.
    pub fn finish(&mut self, output: &mut Vec<u8>) -> (r: SamupResult)
        requires
            old(self).wf(),
        ensures
            r is Ok,
            final(self).wf(),
            final(self).engine(final(output)@) == model::finish(old(self).engine(old(output)@)),
    {
        if self.prev_c != C::Newline {
            self.resolve(output);
        }
        self.drain(output);
        Ok(())
    }

    /// Ends every open construct, innermost first: a link that never got
    /// its `]`, or a footnote reference never resolved, is written back as
    /// text; anything else is closed.
    fn drain(&mut self, out: &mut Vec<u8>)
        requires
            old(self).wf(),
        ensures
            final(self).wf(),
            final(self).pos() == old(self).pos(),
            final(self).engine(final(out)@) == model::drain_all(old(self).engine(old(out)@)),
    {
        let ghost r = self.engine(out@);
        while self.tag_stack.len() > 0
            invariant
                self.wf(),
                self.prev_c == r.prev,
                self.ix == old(self).ix,
                r.out + model::drain_out(r.stack) == out@ + model::drain_out(self.stack_model()),
            decreases self.tag_stack@.len(),
        {
            let ghost s = self.stack_model();
            let ghost pre = out@;
            match self.pop_tag() {
                Some(tag) => tag.write_drain(out),
                None => {},
            }
            proof {
                vstd::seq_lib::lemma_concat_associative(
                    pre,
                    model::drain_html(s[0]),
                    model::drain_out(s.drop_first()),
                );
            }
        }
        assert(self.stack_model() =~= Seq::<TagM>::empty());
        assert(out@ =~= r.out + model::drain_out(r.stack));
    }

    fn push_tag(&mut self, tag: Tag)
        requires
            old(self).wf(),
            tag_wf(tag@),
        ensures
            final(self).wf(),
            final(self).pos() == old(self).pos(),
            final(self).prev_c == old(self).prev_c,
            final(self).stack_model() == seq![tag@] + old(self).stack_model(),
    {
        self.tag_stack.push_front(tag);
        assert(self.stack_model() =~= seq![tag@] + old(self).stack_model());
    }

    fn pop_tag(&mut self) -> (r: Option<Tag>)
        requires
            old(self).wf(),
        ensures
            final(self).wf(),
            final(self).pos() == old(self).pos(),
            final(self).prev_c == old(self).prev_c,
            old(self).stack_model().len() == 0 ==> r is None && final(self).stack_model()
                == old(self).stack_model(),
            old(self).stack_model().len() > 0 ==> (r matches Some(t) && t@ == old(self).stack_model()[0]
                && tag_wf(t@) && final(self).stack_model() == old(self).stack_model().drop_first()),
    {
        let r = self.tag_stack.pop_front();
        assert(self.stack_model() =~= old(self).stack_model().drop_first()
            || old(self).stack_model().len() == 0);
        r
    }

    fn stack_empty(&self) -> (r: bool)
        ensures
            r == (self.stack_model().len() == 0),
    {
        self.tag_stack.len() == 0
    }

    /// Whether the outermost open construct is a heading.
    fn in_heading(&self) -> (r: bool)
        ensures
            r == (self.stack_model().len() > 0 && self.stack_model().last() is H),
    {
        let n = self.tag_stack.len();
        if n == 0 {
            false
        } else {
            assert(self.stack_model().last() == self.tag_stack@[n - 1]@);
            match &self.tag_stack[n - 1] {
                Tag::H(_) => true,
                _ => false,
            }
        }
    }

    fn peek(&self) -> (r: Top)
        ensures
            r == top_of(self.stack_model()),
    {
        if self.tag_stack.len() == 0 {
            Top::Empty
        } else {
            match &self.tag_stack[0] {
                Tag::H(l) => Top::H(l.level()),
                Tag::I => Top::I,
                Tag::P => Top::P,
                Tag::Strong => Top::Strong,
                Tag::Link(l) => match l.state {
                    LinkState::Link => Top::Url,
                    LinkState::Label => Top::Label,
                },
                Tag::FootNoteLink(n) => Top::FnLink(n.ix()),
                Tag::FootNoteRef(n) => Top::FnRef(n.ix()),
            }
        }
    }

    /// Writes the opening fragment of the top construct, which stays open.
    fn write_top_open(&self, out: &mut Vec<u8>)
        requires
            self.wf(),
            self.stack_model().len() > 0,
        ensures
            final(out)@ == old(out)@ + model::open_html(self.stack_model()[0]),
    {
        assert(self.stack_model()[0] == self.tag_stack@[0]@);
        assert(tag_wf(self.stack_model()[0]));
        self.tag_stack[0].write_open(out);
    }

    fn close_top(&mut self, out: &mut Vec<u8>)
        requires
            old(self).wf(),
            old(self).stack_model().len() > 0,
        ensures
            final(self).wf(),
            final(self).pos() == old(self).pos(),
            final(self).engine(final(out)@) == model::close_top(old(self).engine(old(out)@)),
    {
        match self.pop_tag() {
            Some(tag) => tag.write_close(out),
            None => {},
        }
    }

    fn open_tag(&mut self, out: &mut Vec<u8>, tag: Tag)
        requires
            old(self).wf(),
            tag_wf(tag@),
        ensures
            final(self).wf(),
            final(self).pos() == old(self).pos(),
            final(self).engine(final(out)@) == model::open_tag(old(self).engine(old(out)@), tag@),
    {
        tag.write_open(out);
        self.push_tag(tag);
    }

    fn ensure_block(&mut self, out: &mut Vec<u8>)
        requires
            old(self).wf(),
        ensures
            final(self).wf(),
            final(self).pos() == old(self).pos(),
            final(self).engine(final(out)@) == model::ensure_block(old(self).engine(old(out)@)),
    {
        if self.stack_empty() {
            self.open_tag(out, Tag::P);
        }
    }

    fn text(&mut self, out: &mut Vec<u8>, s: &[u8])
        requires
            old(self).wf(),
        ensures
            final(self).wf(),
            final(self).pos() == old(self).pos(),
            final(self).engine(final(out)@) == model::text(old(self).engine(old(out)@), s@),
    {
        self.ensure_block(out);
        emit(out, s);
    }

    fn text_byte(&mut self, out: &mut Vec<u8>, b: u8)
        requires
            old(self).wf(),
        ensures
            final(self).wf(),
            final(self).pos() == old(self).pos(),
            final(self).engine(final(out)@) == model::text(old(self).engine(old(out)@), seq![b]),
    {
        self.ensure_block(out);
        emit_byte(out, b);
    }

    /// Settles what the previous byte left pending.
    fn resolve(&mut self, out: &mut Vec<u8>)
        requires
            old(self).wf(),
        ensures
            final(self).wf(),
            final(self).pos() == old(self).pos(),
            final(self).engine(final(out)@) == model::resolve(old(self).engine(old(out)@)),
    {
        let top = self.peek();
        match self.prev_c {
            C::Newline => {
                if self.in_heading() {
                    self.drain(out);
                }
                emit(out, "\n".as_bytes());
            },
            C::Underscore => {
                if top == Top::I {
                    self.close_top(out);
                } else {
                    self.text(out, "_".as_bytes());
                }
            },
            C::Asterisk => {
                if top == Top::Strong {
                    self.close_top(out);
                } else {
                    self.text(out, "*".as_bytes());
                }
            },
            C::Octothorpe => {
                if top matches Top::H(_) {
                    self.write_top_open(out);
                }
            },
            C::Colon => {
                if top matches Top::FnRef(_) {
                    self.write_top_open(out);
                }
            },
            C::Caret => self.text(out, "[^".as_bytes()),
            C::SqBracketL => self.text(out, "[".as_bytes()),
            C::SqBracketR => {
                if top == Top::Url || top matches Top::FnLink(_) {
                    match self.pop_tag() {
                        Some(tag) => {
                            self.ensure_block(out);
                            tag.write_close(out);
                        },
                        None => {},
                    }
                }
            },
            C::Digit => {
                if let Top::FnLink(n) = top {
                    self.pop_tag();
                    self.text(out, "[^".as_bytes());
                    emit_decimal(out, n);
                }
            },
            _ => {},
        }
    }

    /// A byte of a link's target; `]` ends the target and `[` gives the
    /// link up, writing back what it had read.
    fn transcribe_url(&mut self, curr_char: u8, out: &mut Vec<u8>)
        requires
            old(self).wf(),
            model::reading_url(old(self).engine(old(out)@)),
        ensures
            final(self).wf(),
            final(self).pos() == old(self).pos(),
            final(self).engine(final(out)@) == model::step_url(old(self).engine(old(out)@), curr_char),
    {
        let curr_c = C::from(curr_char);
        if curr_c == C::SqBracketR {
            self.prev_c = C::SqBracketR;
        } else if curr_c == C::SqBracketL {
            match self.pop_tag() {
                Some(Tag::Link(l)) => {
                    self.text(out, "[".as_bytes());
                    emit(out, l.url.as_slice());
                },
                _ => {},
            }
            self.prev_c = C::SqBracketL;
        } else {
            match self.pop_tag() {
                Some(mut tag) => {
                    tag.push_link(curr_char);
                    self.push_tag(tag);
                },
                None => {},
            }
            self.prev_c = C::Content;
        }
    }

    fn transcribe_whitespace(&mut self, curr_char: u8, out: &mut Vec<u8>)
        requires
            old(self).wf(),
        ensures
            final(self).wf(),
            final(self).pos() == old(self).pos(),
            final(self).engine(final(out)@) == model::step_whitespace(
                old(self).engine(old(out)@),
                curr_char,
            ),
    {
        let swallow = self.prev_c == C::Octothorpe || self.prev_c == C::Colon;
        self.resolve(out);
        if !swallow {
            emit_byte(out, curr_char);
        }
        self.prev_c = C::Whitespace;
    }

    fn transcribe_newline(&mut self, out: &mut Vec<u8>)
        requires
            old(self).wf(),
            !(old(self).prev_c == C::Digit && top_of(old(self).stack_model()) matches Top::FnLink(_)),
        ensures
            final(self).wf(),
            final(self).pos() == old(self).pos(),
            model::step_newline(old(self).engine(old(out)@)) == Some(
                final(self).engine(final(out)@),
            ),
    {
        if self.prev_c == C::Newline {
            if !self.stack_empty() {
                self.drain(out);
                emit(out, "\n".as_bytes());
            }
        } else {
            self.resolve(out);
            self.prev_c = C::Newline;
        }
    }

    fn transcribe_underscore(&mut self, out: &mut Vec<u8>)
        requires
            old(self).wf(),
        ensures
            final(self).wf(),
            final(self).pos() == old(self).pos(),
            final(self).engine(final(out)@) == model::step_emphasis(
                old(self).engine(old(out)@),
                C::Underscore,
                "_".spec_bytes(),
                TagM::I,
            ),
    {
        if self.prev_c == C::Underscore {
            self.text(out, "_".as_bytes());
            self.prev_c = C::Content;
        } else if self.prev_c == C::Content {
            self.prev_c = C::Underscore;
        } else {
            self.resolve(out);
            self.ensure_block(out);
            self.open_tag(out, Tag::I);
            self.prev_c = C::Content;
        }
    }

    fn transcribe_asterisk(&mut self, out: &mut Vec<u8>)
        requires
            old(self).wf(),
        ensures
            final(self).wf(),
            final(self).pos() == old(self).pos(),
            final(self).engine(final(out)@) == model::step_emphasis(
                old(self).engine(old(out)@),
                C::Asterisk,
                "*".spec_bytes(),
                TagM::Strong,
            ),
    {
        if self.prev_c == C::Asterisk {
            self.text(out, "*".as_bytes());
            self.prev_c = C::Content;
        } else if self.prev_c == C::Content {
            self.prev_c = C::Asterisk;
        } else {
            self.resolve(out);
            self.ensure_block(out);
            self.open_tag(out, Tag::Strong);
            self.prev_c = C::Content;
        }
    }

    fn transcribe_octothorpe(&mut self, out: &mut Vec<u8>)
        requires
            old(self).wf(),
        ensures
            final(self).wf(),
            final(self).pos() == old(self).pos(),
            final(self).engine(final(out)@) == model::step_octothorpe(old(self).engine(old(out)@)),
    {
        let top = self.peek();
        if self.prev_c == C::Newline {
            self.drain(out);
            emit(out, "\n".as_bytes());
            self.push_tag(Tag::new_h());
            self.prev_c = C::Octothorpe;
        } else if self.prev_c == C::Octothorpe && top matches Top::H(_) {
            if let Top::H(l) = top {
                if l < 6 {
                    match self.pop_tag() {
                        Some(mut tag) => {
                            tag.inc_h();
                            self.push_tag(tag);
                        },
                        None => {},
                    }
                    self.prev_c = C::Octothorpe;
                } else {
                    self.write_top_open(out);
                    emit(out, "#".as_bytes());
                    self.prev_c = C::Content;
                }
            }
        } else {
            self.resolve(out);
            self.text(out, "#".as_bytes());
            self.prev_c = C::Content;
        }
    }

    fn transcribe_caret(&mut self, out: &mut Vec<u8>)
        requires
            old(self).wf(),
        ensures
            final(self).wf(),
            final(self).pos() == old(self).pos(),
            final(self).engine(final(out)@) == model::step_caret(old(self).engine(old(out)@)),
    {
        if self.prev_c == C::SqBracketL {
            self.prev_c = C::Caret;
        } else {
            self.resolve(out);
            self.text(out, "^".as_bytes());
            self.prev_c = C::Content;
        }
    }

    fn transcribe_colon(&mut self, out: &mut Vec<u8>)
        requires
            old(self).wf(),
        ensures
            final(self).wf(),
            final(self).pos() == old(self).pos(),
            final(self).engine(final(out)@) == model::step_colon(old(self).engine(old(out)@)),
    {
        if self.prev_c == C::SqBracketR && self.peek() matches Top::FnLink(_) {
            match self.pop_tag() {
                Some(Tag::FootNoteLink(n)) => self.push_tag(Tag::FootNoteRef(n)),
                _ => {},
            }
            self.prev_c = C::Colon;
        } else {
            self.resolve(out);
            self.text(out, ":".as_bytes());
            self.prev_c = C::Content;
        }
    }

    /// `[` may start a link or a footnote marker: what follows decides.
    fn transcribe_sq_bracket_l(&mut self, out: &mut Vec<u8>)
        requires
            old(self).wf(),
        ensures
            final(self).wf(),
            final(self).pos() == old(self).pos(),
            final(self).engine(final(out)@) == model::with_prev(
                model::resolve(old(self).engine(old(out)@)),
                C::SqBracketL,
            ),
    {
        self.resolve(out);
        self.prev_c = C::SqBracketL;
    }

    fn transcribe_sq_bracket_r(&mut self, out: &mut Vec<u8>)
        requires
            old(self).wf(),
        ensures
            final(self).wf(),
            final(self).pos() == old(self).pos(),
            final(self).engine(final(out)@) == model::step_sq_bracket_r(
                old(self).engine(old(out)@),
            ),
    {
        if self.prev_c == C::Digit && self.peek() matches Top::FnLink(_) {
            self.prev_c = C::SqBracketR;
        } else {
            self.resolve(out);
            self.text(out, "]".as_bytes());
            self.prev_c = C::Content;
        }
    }

    /// `(` right after a link's `]` starts its label; `)` ends a label.
    /// Anywhere else they are text.
    fn transcribe_paren(&mut self, curr_c: C, out: &mut Vec<u8>)
        requires
            old(self).wf(),
        ensures
            final(self).wf(),
            final(self).pos() == old(self).pos(),
            final(self).engine(final(out)@) == if curr_c == C::ParenL {
                model::step_paren_l(old(self).engine(old(out)@))
            } else {
                model::step_paren_r(old(self).engine(old(out)@))
            },
    {
        if curr_c == C::ParenL {
            if self.prev_c == C::SqBracketR && self.peek() == Top::Url {
                self.write_top_open(out);
                match self.pop_tag() {
                    Some(mut tag) => {
                        tag.end_url();
                        self.push_tag(tag);
                    },
                    None => {},
                }
            } else {
                self.resolve(out);
                self.text(out, "(".as_bytes());
            }
        } else {
            self.resolve(out);
            if self.peek() == Top::Label {
                self.close_top(out);
            } else {
                self.text(out, ")".as_bytes());
            }
        }
        self.prev_c = if curr_c == C::ParenL {
            C::ParenL
        } else {
            C::Content
        };
    }

    fn transcribe_digit(&mut self, curr_char: u8, out: &mut Vec<u8>)
        requires
            old(self).wf(),
            is_digit(curr_char),
            !(old(self).prev_c == C::SqBracketR && top_of(old(self).stack_model()) matches Top::FnLink(
                _,
            )),
            (old(self).prev_c == C::Digit && top_of(old(self).stack_model()) matches Top::FnLink(_))
                ==> push_index_digit(old(self).stack_model()[0]->FnLink_0, curr_char) <= u64::MAX,
        ensures
            final(self).wf(),
            final(self).pos() == old(self).pos(),
            model::step_digit(old(self).engine(old(out)@), curr_char) == Some(
                final(self).engine(final(out)@),
            ),
    {
        if self.prev_c == C::Caret {
            self.push_tag(Tag::new_fn_link(curr_char));
            self.prev_c = C::Digit;
        } else if self.prev_c == C::Digit && self.peek() matches Top::FnLink(_) {
            match self.pop_tag() {
                Some(mut tag) => {
                    tag.push_fn_digit(curr_char);
                    self.push_tag(tag);
                },
                None => {},
            }
        } else {
            self.transcribe_content(curr_char, out);
        }
    }

    fn transcribe_content(&mut self, curr_char: u8, out: &mut Vec<u8>)
        requires
            old(self).wf(),
        ensures
            final(self).wf(),
            final(self).pos() == old(self).pos(),
            final(self).engine(final(out)@) == model::step_content(
                old(self).engine(old(out)@),
                curr_char,
            ),
    {
        if self.prev_c == C::SqBracketL {
            self.ensure_block(out);
            self.push_tag(Tag::new_link(curr_char));
        } else if self.prev_c == C::Newline {
            if self.in_heading() {
                self.drain(out);
                emit(out, "\n".as_bytes());
            } else if !self.stack_empty() {
                emit(out, "\n".as_bytes());
            }
            self.text_byte(out, curr_char);
        } else if self.prev_c == C::Underscore {
            self.text(out, "_".as_bytes());
            self.text_byte(out, curr_char);
        } else if self.prev_c == C::Asterisk {
            self.text(out, "*".as_bytes());
            self.text_byte(out, curr_char);
        } else {
            self.resolve(out);
            self.text_byte(out, curr_char);
        }
        self.prev_c = C::Content;
    }
}

impl Default for Transcriber {
    fn default() -> (r: Self)
        ensures
            r.pos() == 0,
            r.wf(),
            forall|o: Seq<u8>| #[trigger] r.engine(o) == (Engine { out: o, ..model::initial() }),
    {
        Self::new()
    }
}

} // verus!
