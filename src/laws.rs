//! Properties of the transcription, proved over the model.
use vstd::prelude::*;
use vstd::string::StringSliceAdditionalSpecFns;

use crate::model::{
    close_html, decimal, open_html, drain_out, ensure_block, finish, resolve, footnote_violation, initial, reading_url, render, run, run_from, step, top,
    Engine, TagM,
};
use crate::{class_of, LinkState, C};

verus! {

/// A byte with no meaning of its own outside links and footnote markers:
/// text, a space or tab, or a digit.
pub open spec fn plain(b: u8) -> bool {
    class_of(b) == C::Content || class_of(b) == C::Whitespace || class_of(b) == C::Digit
}

/// Classification is a function of the byte alone: equal bytes get equal
/// classes, whenever and wherever they are classified.
pub proof fn law_classify_deterministic(a: u8, b: u8)
    requires
        a == b,
    ensures
        class_of(a) == class_of(b),
{
}

/// A step fails exactly on a malformed footnote marker; on every other
/// byte, in every state, the engine moves on.
pub proof fn law_step_fails_only_on_footnote_syntax(e: Engine, b: u8)
    ensures
        step(e, b) is None <==> footnote_violation(e, b),
{
    reveal(step);
}

/// Reading `a` then `b` is reading `a + b`.
pub proof fn lemma_run_from_concat(e: Engine, a: Seq<u8>, b: Seq<u8>)
    ensures
        run_from(e, a + b) == match run_from(e, a) {
            Some(x) => run_from(x, b),
            None => None,
        },
    decreases b.len(),
{
    if b.len() == 0 {
        assert(a + b =~= a);
    } else {
        assert((a + b).drop_last() =~= a + b.drop_last());
        assert((a + b).last() == b.last());
        lemma_run_from_concat(e, a, b.drop_last());
    }
}

/// Totality: a transcription fails only where a footnote marker is
/// malformed, and when it does not fail the end of input leaves no construct
/// open, so every tag that was opened has been closed.
pub proof fn law_totality(input: Seq<u8>)
    ensures
        run(input) is None <==> exists|i: int|
            0 <= i < input.len() && #[trigger] run(input.take(i)) is Some && footnote_violation(
                run(input.take(i))->Some_0,
                input[i],
            ),
        run(input) is Some ==> render(input) is Some && finish(run(input)->Some_0).stack.len() == 0,
    decreases input.len(),
{
    if input.len() > 0 {
        let p = input.drop_last();
        let n = input.len() - 1;
        law_totality(p);
        assert(input.take(n) =~= p);
        assert forall|i: int| 0 <= i < p.len() implies input.take(i) == p.take(i) && input[i]
            == p[i] by {
            assert(input.take(i) =~= p.take(i));
        }
        if let Some(e) = run(p) {
            law_step_fails_only_on_footnote_syntax(e, input.last());
            if run(input) is None {
                assert(run(input.take(n)) is Some && footnote_violation(
                    run(input.take(n))->Some_0,
                    input[n],
                ));
            }
        } else {
            let i = choose|i: int|
                0 <= i < p.len() && #[trigger] run(p.take(i)) is Some && footnote_violation(
                    run(p.take(i))->Some_0,
                    p[i],
                );
            assert(run(input.take(i)) is Some && footnote_violation(
                run(input.take(i))->Some_0,
                input[i],
            ));
        }
    } else {
        assert(run(input) == Some(initial()));
    }
}

/// Plain bytes are copied unchanged: from a state where nothing is pending
/// (after text, a space or an opening parenthesis) and some construct other
/// than a link target is open, a run of plain bytes
/// writes exactly those bytes and opens or closes nothing.
pub proof fn law_plain_run_verbatim(e: Engine, s: Seq<u8>)
    requires
        e.prev == C::Content || e.prev == C::Whitespace || e.prev == C::ParenL,
        e.stack.len() > 0,
        !(top(e) matches Some(TagM::Link(LinkState::Link, _))),
        forall|i: int| 0 <= i < s.len() ==> plain(#[trigger] s[i]),
    ensures
        run_from(e, s) is Some,
        run_from(e, s)->Some_0.stack == e.stack,
        run_from(e, s)->Some_0.out == e.out + s,
        s.len() == 0 ==> run_from(e, s)->Some_0.prev == e.prev,
        s.len() > 0 ==> run_from(e, s)->Some_0.prev == if class_of(s.last()) == C::Whitespace {
            C::Whitespace
        } else {
            C::Content
        },
    decreases s.len(),
{
    reveal(step);
    if s.len() == 0 {
        assert(e.out + s =~= e.out);
    } else {
        let p = s.drop_last();
        assert forall|i: int| 0 <= i < p.len() implies plain(#[trigger] p[i]) by {
            assert(p[i] == s[i]);
        }
        law_plain_run_verbatim(e, p);
        let r = run_from(e, p)->Some_0;
        assert(!reading_url(r));
        assert(plain(s[s.len() - 1]));
        assert(e.out + p + seq![s.last()] =~= e.out + s);
    }
}

/// Text or a digit at the very start opens a paragraph and is written in it.
proof fn lemma_first_text_byte(b: u8)
    requires
        class_of(b) == C::Content || class_of(b) == C::Digit,
    ensures
        step(initial(), b) == Some(
            Engine { prev: C::Content, stack: seq![TagM::P], out: "<p>".spec_bytes() + seq![b] },
        ),
{
    reveal(step);
    let r = step(initial(), b)->Some_0;
    assert(r.stack =~= seq![TagM::P]);
    assert(r.out =~= "<p>".spec_bytes() + seq![b]);
}

/// Plain text at the start: one open paragraph holding it.
proof fn lemma_text_paragraph(t: Seq<u8>)
    requires
        t.len() > 0,
        class_of(t[0]) == C::Content || class_of(t[0]) == C::Digit,
        forall|i: int| 0 <= i < t.len() ==> plain(#[trigger] t[i]),
    ensures
        run(t) is Some,
        run(t)->Some_0.stack == seq![TagM::P],
        run(t)->Some_0.out == "<p>".spec_bytes() + t,
        run(t)->Some_0.prev == C::Content || run(t)->Some_0.prev == C::Whitespace,
{
    let head = t.take(1);
    let rest = t.skip(1);
    assert(head + rest =~= t);
    lemma_run_from_concat(initial(), head, rest);
    assert(head =~= seq![t[0]]);
    lemma_run_one(initial(), t[0]);
    lemma_first_text_byte(t[0]);
    let e1 = run_from(initial(), head)->Some_0;
    assert forall|i: int| 0 <= i < rest.len() implies plain(#[trigger] rest[i]) by {
        assert(rest[i] == t[i + 1]);
    }
    law_plain_run_verbatim(e1, rest);
    assert("<p>".spec_bytes() + seq![t[0]] + rest =~= "<p>".spec_bytes() + t);
}

/// A document of plain bytes that starts with text or a digit becomes one
/// paragraph holding exactly those bytes.
pub proof fn law_plain_paragraph(s: Seq<u8>)
    requires
        s.len() > 0,
        class_of(s[0]) == C::Content || class_of(s[0]) == C::Digit,
        forall|i: int| 0 <= i < s.len() ==> plain(#[trigger] s[i]),
    ensures
        render(s) == Some("<p>".spec_bytes() + s + "</p>".spec_bytes()),
{
    lemma_text_paragraph(s);
    let r = run(s)->Some_0;
    assert(drain_out(r.stack) =~= "</p>".spec_bytes()) by {
        assert(r.stack.drop_first() =~= Seq::<TagM>::empty());
        reveal_with_fuel(drain_out, 2);
    }
    assert(finish(r).out =~= "<p>".spec_bytes() + s + "</p>".spec_bytes());
}

pub open spec fn is_block(t: TagM) -> bool {
    t is P || t is H
}

/// At most one block construct (paragraph or heading) is open.
pub open spec fn one_block(s: Seq<TagM>) -> bool {
    forall|i: int, j: int|
        0 <= i < j < s.len() && is_block(#[trigger] s[i]) ==> !is_block(#[trigger] s[j])
}

proof fn lemma_one_block_drop_first(s: Seq<TagM>)
    requires
        s.len() > 0,
        one_block(s),
    ensures
        one_block(s.drop_first()),
{
    assert forall|i: int, j: int|
        0 <= i < j < s.drop_first().len() && is_block(#[trigger] s.drop_first()[i]) implies !is_block(
        #[trigger] s.drop_first()[j],
    ) by {
        assert(s.drop_first()[i] == s[i + 1] && s.drop_first()[j] == s[j + 1]);
    }
}

proof fn lemma_one_block_push(t: TagM, s: Seq<TagM>)
    requires
        one_block(s),
        is_block(t) ==> s.len() == 0,
    ensures
        one_block(seq![t] + s),
{
    let r = seq![t] + s;
    assert forall|i: int, j: int| 0 <= i < j < r.len() && is_block(#[trigger] r[i]) implies !is_block(
        #[trigger] r[j],
    ) by {
        if i > 0 {
            assert(r[i] == s[i - 1] && r[j] == s[j - 1]);
        } else {
            assert(r[j] == s[j - 1]);
        }
    }
}

proof fn lemma_one_block_set_top(t: TagM, s: Seq<TagM>)
    requires
        one_block(s),
        s.len() > 0,
        is_block(t) == is_block(s[0]),
    ensures
        one_block(seq![t] + s.drop_first()),
{
    let r = seq![t] + s.drop_first();
    assert forall|i: int, j: int| 0 <= i < j < r.len() && is_block(#[trigger] r[i]) implies !is_block(
        #[trigger] r[j],
    ) by {
        assert(r[j] == s[j]);
        if i > 0 {
            assert(r[i] == s[i]);
        }
    }
}

proof fn lemma_ensure_block_one_block(e: Engine)
    requires
        one_block(e.stack),
    ensures
        one_block(ensure_block(e).stack),
        ensure_block(e).stack.len() > 0,
{
    if e.stack.len() == 0 {
        lemma_one_block_push(TagM::P, e.stack);
    }
}

proof fn lemma_resolve_one_block(e: Engine)
    requires
        one_block(e.stack),
    ensures
        one_block(resolve(e).stack),
{
    lemma_ensure_block_one_block(e);
    if e.stack.len() > 0 {
        lemma_one_block_drop_first(e.stack);
        let p = Engine { prev: e.prev, stack: e.stack.drop_first(), out: e.out };
        lemma_ensure_block_one_block(p);
    }
}

/// Every step keeps at most one block construct open.
proof fn lemma_step_one_block(e: Engine, b: u8)
    requires
        one_block(e.stack),
        step(e, b) is Some,
    ensures
        one_block(step(e, b)->Some_0.stack),
{
    reveal(step);
    lemma_resolve_one_block(e);
    lemma_ensure_block_one_block(e);
    lemma_ensure_block_one_block(resolve(e));
    if e.stack.len() > 0 {
        lemma_one_block_drop_first(e.stack);
        lemma_one_block_set_top(e.stack[0], e.stack);
        let p = Engine { prev: e.prev, stack: e.stack.drop_first(), out: e.out };
        lemma_ensure_block_one_block(p);
        match e.stack[0] {
            TagM::Link(_, url) => {
                lemma_one_block_set_top(TagM::Link(LinkState::Link, url.push(b)), e.stack);
                lemma_one_block_set_top(TagM::Link(LinkState::Label, url), e.stack);
            },
            TagM::FnLink(n) => {
                lemma_one_block_set_top(TagM::FnRef(n), e.stack);
                lemma_one_block_set_top(TagM::FnLink(crate::push_index_digit(n, b) as u64), e.stack);
            },
            TagM::H(l) => {
                lemma_one_block_set_top(TagM::H((l + 1) as u8), e.stack);
            },
            _ => {},
        }
    }
    let r = resolve(e);
    if r.stack.len() > 0 {
        lemma_one_block_drop_first(r.stack);
    }
    lemma_one_block_push(TagM::I, ensure_block(resolve(e)).stack);
    lemma_one_block_push(TagM::Strong, ensure_block(resolve(e)).stack);
    lemma_one_block_push(TagM::H(1), Seq::empty());
    lemma_one_block_push(TagM::Link(LinkState::Link, seq![b]), ensure_block(e).stack);
    lemma_one_block_push(TagM::FnLink((b - 48) as u64), e.stack);
}

/// The block rule: whatever the input, at most one paragraph or heading is
/// open at any time; text, emphasis, links and footnotes nest above it.
pub proof fn law_one_block(input: Seq<u8>)
    ensures
        run(input) is Some ==> one_block(run(input)->Some_0.stack),
    decreases input.len(),
{
    if input.len() > 0 {
        law_one_block(input.drop_last());
        if let Some(e) = run(input.drop_last()) {
            if step(e, input.last()) is Some {
                lemma_step_one_block(e, input.last());
            }
        }
    }
}

/// Reading one byte is one step.
proof fn lemma_run_one(e: Engine, b: u8)
    ensures
        run_from(e, seq![b]) == step(e, b),
{
    assert(seq![b].drop_last() =~= Seq::<u8>::empty());
    assert(run_from(e, seq![b].drop_last()) == Some(e));
    assert(seq![b].last() == b);
}

/// `n` times `#`.
pub open spec fn hashes(n: nat) -> Seq<u8> {
    Seq::new(n, |i: int| 35u8)
}

/// A run of one to six `#` at the start is a heading of that level, not yet
/// written.
proof fn lemma_hash_run(k: nat)
    requires
        1 <= k <= 6,
    ensures
        run(hashes(k)) == Some(
            Engine {
                prev: C::Octothorpe,
                stack: seq![TagM::H(k as u8)],
                out: "\n".spec_bytes(),
            },
        ),
    decreases k,
{
    reveal(step);
    if k == 1 {
        assert(hashes(1) =~= seq![35u8]);
        lemma_run_one(initial(), 35);
        assert(drain_out(Seq::<TagM>::empty()) =~= Seq::<u8>::empty());
        assert(Seq::<u8>::empty() + "\n".spec_bytes() =~= "\n".spec_bytes());
        assert(seq![TagM::H(1)] + Seq::<TagM>::empty() =~= seq![TagM::H(1)]);
    } else {
        lemma_hash_run((k - 1) as nat);
        assert(hashes(k).drop_last() =~= hashes((k - 1) as nat));
        assert(hashes(k).last() == 35u8);
        assert(seq![TagM::H(k as u8)] + seq![TagM::H((k - 1) as u8)].drop_first() =~= seq![
            TagM::H(k as u8),
        ]);
    }
}

/// Headings: one to six `#`, a space, then plain text make a heading of
/// that level holding the text.
pub proof fn law_heading(level: nat, t: Seq<u8>)
    requires
        1 <= level <= 6,
        forall|i: int| 0 <= i < t.len() ==> plain(#[trigger] t[i]),
    ensures
        render(hashes(level) + seq![32u8] + t) == Some(
            "\n".spec_bytes() + open_html(TagM::H(level as u8)) + t + close_html(
                TagM::H(level as u8),
            ),
        ),
{
    reveal(step);
    let h = TagM::H(level as u8);
    lemma_hash_run(level);
    lemma_run_from_concat(initial(), hashes(level), seq![32u8]);
    lemma_run_from_concat(initial(), hashes(level) + seq![32u8], t);
    let e0 = run(hashes(level))->Some_0;
    lemma_run_one(e0, 32u8);
    let e1 = step(e0, 32u8)->Some_0;
    assert(e1.stack == seq![h]);
    assert(e1.prev == C::Whitespace);
    law_plain_run_verbatim(e1, t);
    let r = run_from(e1, t)->Some_0;
    assert(drain_out(r.stack) =~= close_html(h)) by {
        assert(r.stack.drop_first() =~= Seq::<TagM>::empty());
        reveal_with_fuel(drain_out, 2);
    }
    assert(finish(r).out =~= "\n".spec_bytes() + open_html(h) + t + close_html(h));
}

pub open spec fn emphasis_tag(delim: u8) -> TagM {
    if delim == 95 {
        TagM::I
    } else {
        TagM::Strong
    }
}

/// `_` or `*` at the start opens a paragraph and the emphasis in it.
proof fn lemma_open_emphasis(delim: u8)
    requires
        delim == 95 || delim == 42,
    ensures
        step(initial(), delim) == Some(
            Engine {
                prev: C::Content,
                stack: seq![emphasis_tag(delim), TagM::P],
                out: "\n".spec_bytes() + "<p>".spec_bytes() + open_html(emphasis_tag(delim)),
            },
        ),
{
    reveal(step);
    let r = step(initial(), delim)->Some_0;
    assert(r.stack =~= seq![emphasis_tag(delim), TagM::P]);
    assert(r.out =~= "\n".spec_bytes() + "<p>".spec_bytes() + open_html(emphasis_tag(delim)));
}

/// The closing `_` or `*` after text, then the end of input, close the
/// emphasis and its paragraph.
proof fn lemma_close_emphasis(r: Engine, delim: u8)
    requires
        delim == 95 || delim == 42,
        r.prev == C::Content,
        r.stack == seq![emphasis_tag(delim), TagM::P],
    ensures
        step(r, delim) is Some,
        finish(step(r, delim)->Some_0).out == r.out + close_html(emphasis_tag(delim))
            + "</p>".spec_bytes(),
{
    reveal(step);
    let r2 = step(r, delim)->Some_0;
    let r3 = resolve(r2);
    assert(r3.stack =~= seq![TagM::P]);
    assert(drain_out(r3.stack) =~= "</p>".spec_bytes()) by {
        assert(r3.stack.drop_first() =~= Seq::<TagM>::empty());
        reveal_with_fuel(drain_out, 2);
    }
    assert(finish(r2).out =~= r.out + close_html(emphasis_tag(delim)) + "</p>".spec_bytes());
}

/// Emphasis: `_text_` is italic and `*text*` strong, in a paragraph, when
/// the text is plain and does not end with a space.
pub proof fn law_emphasis(delim: u8, t: Seq<u8>)
    requires
        delim == 95 || delim == 42,
        t.len() > 0,
        forall|i: int| 0 <= i < t.len() ==> plain(#[trigger] t[i]),
        class_of(t.last()) != C::Whitespace,
    ensures
        render(seq![delim] + t + seq![delim]) == Some(
            "\n".spec_bytes() + "<p>".spec_bytes() + open_html(emphasis_tag(delim)) + t
                + close_html(emphasis_tag(delim)) + "</p>".spec_bytes(),
        ),
{
    let tag = emphasis_tag(delim);
    lemma_run_one(initial(), delim);
    lemma_run_from_concat(initial(), seq![delim], t);
    lemma_run_from_concat(initial(), seq![delim] + t, seq![delim]);
    lemma_open_emphasis(delim);
    let e1 = step(initial(), delim)->Some_0;
    law_plain_run_verbatim(e1, t);
    let r = run_from(e1, t)->Some_0;
    lemma_run_one(r, delim);
    lemma_close_emphasis(r, delim);
    assert(finish(step(r, delim)->Some_0).out =~= "\n".spec_bytes() + "<p>".spec_bytes()
        + open_html(tag) + t + close_html(tag) + "</p>".spec_bytes());
}

/// A byte that neither ends a link's target nor gives it up.
pub open spec fn url_byte(b: u8) -> bool {
    class_of(b) != C::SqBracketR && class_of(b) != C::SqBracketL
}

/// While a link reads its target, every byte but a bracket goes into it and
/// nothing is written.
proof fn lemma_url_run(e: Engine, s: Seq<u8>)
    requires
        top(e) matches Some(TagM::Link(LinkState::Link, _)),
        e.prev != C::SqBracketR,
        forall|i: int| 0 <= i < s.len() ==> url_byte(#[trigger] s[i]),
    ensures
        run_from(e, s) == Some(
            Engine {
                prev: if s.len() == 0 {
                    e.prev
                } else {
                    C::Content
                },
                stack: seq![TagM::Link(LinkState::Link, e.stack[0]->Link_1 + s)]
                    + e.stack.drop_first(),
                out: e.out,
            },
        ),
    decreases s.len(),
{
    reveal(step);
    let url = e.stack[0]->Link_1;
    if s.len() == 0 {
        assert(url + s =~= url);
        assert(seq![TagM::Link(LinkState::Link, url)] + e.stack.drop_first() =~= e.stack);
    } else {
        let p = s.drop_last();
        assert forall|i: int| 0 <= i < p.len() implies url_byte(#[trigger] p[i]) by {
            assert(p[i] == s[i]);
        }
        lemma_url_run(e, p);
        assert(url_byte(s[s.len() - 1]));
        let r = run_from(e, p)->Some_0;
        assert((url + p).push(s.last()) =~= url + s);
        assert(seq![TagM::Link(LinkState::Link, url + s)] + r.stack.drop_first() =~= seq![
            TagM::Link(LinkState::Link, url + s),
        ] + e.stack.drop_first());
    }
}

/// `[` then text or a digit at the start opens a paragraph and a link.
proof fn lemma_open_link(b: u8)
    requires
        class_of(b) == C::Content || class_of(b) == C::Digit,
    ensures
        run(seq![91u8, b]) == Some(
            Engine {
                prev: C::Content,
                stack: seq![TagM::Link(LinkState::Link, seq![b]), TagM::P],
                out: "\n".spec_bytes() + "<p>".spec_bytes(),
            },
        ),
{
    reveal(step);
    assert(seq![91u8, b] =~= seq![91u8] + seq![b]);
    lemma_run_from_concat(initial(), seq![91u8], seq![b]);
    lemma_run_one(initial(), 91u8);
    let e1 = step(initial(), 91u8)->Some_0;
    lemma_run_one(e1, b);
    let e2 = step(e1, b)->Some_0;
    assert(e2.stack =~= seq![TagM::Link(LinkState::Link, seq![b]), TagM::P]);
    assert(e2.out =~= "\n".spec_bytes() + "<p>".spec_bytes());
}

/// A link's target, from `[` to `]`, read at the start of the input.
proof fn lemma_link_target(u: Seq<u8>)
    requires
        u.len() > 0,
        class_of(u[0]) == C::Content || class_of(u[0]) == C::Digit,
        forall|i: int| 0 <= i < u.len() ==> url_byte(#[trigger] u[i]),
    ensures
        run(seq![91u8] + u + seq![93u8]) == Some(
            Engine {
                prev: C::SqBracketR,
                stack: seq![TagM::Link(LinkState::Link, u), TagM::P],
                out: "\n".spec_bytes() + "<p>".spec_bytes(),
            },
        ),
{
    reveal(step);
    let rest = u.skip(1);
    assert(seq![91u8] + u + seq![93u8] =~= seq![91u8, u[0]] + rest + seq![93u8]);
    lemma_run_from_concat(initial(), seq![91u8, u[0]], rest);
    lemma_run_from_concat(initial(), seq![91u8, u[0]] + rest, seq![93u8]);
    lemma_open_link(u[0]);
    let e1 = run(seq![91u8, u[0]])->Some_0;
    assert forall|i: int| 0 <= i < rest.len() implies url_byte(#[trigger] rest[i]) by {
        assert(rest[i] == u[i + 1]);
    }
    lemma_url_run(e1, rest);
    assert(seq![u[0]] + rest =~= u);
    let e2 = run_from(e1, rest)->Some_0;
    assert(e2.stack =~= seq![TagM::Link(LinkState::Link, u), TagM::P]);
    lemma_run_one(e2, 93u8);
}

/// Links: `[url]` is an anchor whose target and text are both the url.
pub proof fn law_link(u: Seq<u8>)
    requires
        u.len() > 0,
        class_of(u[0]) == C::Content || class_of(u[0]) == C::Digit,
        forall|i: int| 0 <= i < u.len() ==> url_byte(#[trigger] u[i]),
    ensures
        render(seq![91u8] + u + seq![93u8]) == Some(
            "\n".spec_bytes() + "<p>".spec_bytes() + "<a href=\"".spec_bytes() + u
                + "\" target=\"_blank\">".spec_bytes() + u + "</a>".spec_bytes()
                + "</p>".spec_bytes(),
        ),
{
    lemma_link_target(u);
    let e = run(seq![91u8] + u + seq![93u8])->Some_0;
    let r = resolve(e);
    assert(r.stack =~= seq![TagM::P]);
    assert(drain_out(r.stack) =~= "</p>".spec_bytes()) by {
        assert(r.stack.drop_first() =~= Seq::<TagM>::empty());
        reveal_with_fuel(drain_out, 2);
    }
    assert(finish(e).out =~= "\n".spec_bytes() + "<p>".spec_bytes() + "<a href=\"".spec_bytes()
        + u + "\" target=\"_blank\">".spec_bytes() + u + "</a>".spec_bytes()
        + "</p>".spec_bytes());
}

/// `(` right after a link's `]` writes the anchor's opening and turns to
/// its label.
proof fn lemma_label_open(e: Engine, u: Seq<u8>)
    requires
        e.prev == C::SqBracketR,
        e.stack == seq![TagM::Link(LinkState::Link, u), TagM::P],
    ensures
        step(e, 40u8) == Some(
            Engine {
                prev: C::ParenL,
                stack: seq![TagM::Link(LinkState::Label, u), TagM::P],
                out: e.out + open_html(TagM::Link(LinkState::Link, u)),
            },
        ),
{
    reveal(step);
    let r = step(e, 40u8)->Some_0;
    assert(r.stack =~= seq![TagM::Link(LinkState::Label, u), TagM::P]);
}

/// `)` after a label, then the end of input, close the anchor and its
/// paragraph.
proof fn lemma_label_close(e: Engine, u: Seq<u8>)
    requires
        e.prev == C::Content || e.prev == C::Whitespace || e.prev == C::ParenL,
        e.stack == seq![TagM::Link(LinkState::Label, u), TagM::P],
    ensures
        step(e, 41u8) is Some,
        finish(step(e, 41u8)->Some_0).out == e.out + "</a>".spec_bytes() + "</p>".spec_bytes(),
{
    reveal(step);
    let r = step(e, 41u8)->Some_0;
    assert(r.stack =~= seq![TagM::P]);
    assert(drain_out(r.stack) =~= "</p>".spec_bytes()) by {
        assert(r.stack.drop_first() =~= Seq::<TagM>::empty());
        reveal_with_fuel(drain_out, 2);
    }
}

/// Labelled links: `[url](label)` is an anchor to the url whose text is the
/// label, when the label is plain.
pub proof fn law_link_label(u: Seq<u8>, l: Seq<u8>)
    requires
        u.len() > 0,
        class_of(u[0]) == C::Content || class_of(u[0]) == C::Digit,
        forall|i: int| 0 <= i < u.len() ==> url_byte(#[trigger] u[i]),
        forall|i: int| 0 <= i < l.len() ==> plain(#[trigger] l[i]),
    ensures
        render(seq![91u8] + u + seq![93u8, 40u8] + l + seq![41u8]) == Some(
            "\n".spec_bytes() + "<p>".spec_bytes() + "<a href=\"".spec_bytes() + u
                + "\" target=\"_blank\">".spec_bytes() + l + "</a>".spec_bytes()
                + "</p>".spec_bytes(),
        ),
{
    let head = seq![91u8] + u + seq![93u8];
    assert(seq![91u8] + u + seq![93u8, 40u8] + l + seq![41u8] =~= head + seq![40u8] + l + seq![
        41u8,
    ]);
    lemma_link_target(u);
    lemma_run_from_concat(initial(), head, seq![40u8]);
    lemma_run_from_concat(initial(), head + seq![40u8], l);
    lemma_run_from_concat(initial(), head + seq![40u8] + l, seq![41u8]);
    let e = run(head)->Some_0;
    lemma_run_one(e, 40u8);
    lemma_label_open(e, u);
    let e1 = step(e, 40u8)->Some_0;
    law_plain_run_verbatim(e1, l);
    let e2 = run_from(e1, l)->Some_0;
    lemma_run_one(e2, 41u8);
    lemma_label_close(e2, u);
    assert(finish(step(e2, 41u8)->Some_0).out =~= "\n".spec_bytes() + "<p>".spec_bytes()
        + "<a href=\"".spec_bytes() + u + "\" target=\"_blank\">".spec_bytes() + l
        + "</a>".spec_bytes() + "</p>".spec_bytes());
}

/// The number that a run of decimal digits writes.
pub open spec fn index_of(d: Seq<u8>) -> nat
    decreases d.len(),
{
    if d.len() == 0 {
        0
    } else {
        (index_of(d.drop_last()) * 10 + (d.last() - 48)) as nat
    }
}

/// The digits of a footnote marker, after `[^`, build its index.
proof fn lemma_marker_digits(e: Engine, d: Seq<u8>)
    requires
        e.prev == C::Caret,
        e.stack == seq![TagM::P],
        d.len() > 0,
        forall|i: int| 0 <= i < d.len() ==> class_of(#[trigger] d[i]) == C::Digit,
        index_of(d) <= u64::MAX,
    ensures
        run_from(e, d) == Some(
            Engine {
                prev: C::Digit,
                stack: seq![TagM::FnLink(index_of(d) as u64), TagM::P],
                out: e.out,
            },
        ),
    decreases d.len(),
{
    reveal(step);
    if d.len() == 1 {
        assert(d =~= seq![d[0]]);
        assert(d.drop_last() =~= Seq::<u8>::empty());
        lemma_run_one(e, d[0]);
        let r = step(e, d[0])->Some_0;
        assert(r.stack =~= seq![TagM::FnLink(index_of(d) as u64), TagM::P]);
    } else {
        let p = d.drop_last();
        assert forall|i: int| 0 <= i < p.len() implies class_of(#[trigger] p[i]) == C::Digit by {
            assert(p[i] == d[i]);
        }
        assert(class_of(d[d.len() - 1]) == C::Digit);
        assert(index_of(p) <= index_of(d));
        lemma_marker_digits(e, p);
        let r = run_from(e, p)->Some_0;
        let x = step(r, d.last())->Some_0;
        assert(x.stack =~= seq![TagM::FnLink(index_of(d) as u64), TagM::P]);
    }
}

/// Footnote references: text followed by `[^digits]` is a paragraph that
/// ends with a superscript anchor to the footnote whose index the digits
/// write, when that index fits in a `u64`.
pub proof fn law_footnote_reference(t: Seq<u8>, d: Seq<u8>)
    requires
        t.len() > 0,
        class_of(t[0]) == C::Content || class_of(t[0]) == C::Digit,
        forall|i: int| 0 <= i < t.len() ==> plain(#[trigger] t[i]),
        d.len() > 0,
        forall|i: int| 0 <= i < d.len() ==> class_of(#[trigger] d[i]) == C::Digit,
        index_of(d) <= u64::MAX,
    ensures
        render(t + seq![91u8, 94u8] + d + seq![93u8]) == Some(
            "<p>".spec_bytes() + t + "<a id=\"link-".spec_bytes() + decimal(index_of(d) as nat)
                + "\" target=\"#ref-".spec_bytes() + decimal(index_of(d) as nat)
                + "\"><sup>".spec_bytes() + decimal(index_of(d) as nat)
                + "</sup></a>".spec_bytes() + "</p>".spec_bytes(),
        ),
{
    lemma_text_paragraph(t);
    let e = run(t)->Some_0;
    lemma_run_from_concat(initial(), t, seq![91u8, 94u8]);
    lemma_run_from_concat(initial(), t + seq![91u8, 94u8], d);
    lemma_run_from_concat(initial(), t + seq![91u8, 94u8] + d, seq![93u8]);
    lemma_marker_open(e);
    let e1 = run_from(e, seq![91u8, 94u8])->Some_0;
    lemma_marker_digits(e1, d);
    let e2 = run_from(e1, d)->Some_0;
    lemma_run_one(e2, 93u8);
    lemma_marker_close(e2);
    assert(finish(step(e2, 93u8)->Some_0).out =~= "<p>".spec_bytes() + t
        + "<a id=\"link-".spec_bytes() + decimal(index_of(d) as nat)
        + "\" target=\"#ref-".spec_bytes() + decimal(index_of(d) as nat)
        + "\"><sup>".spec_bytes() + decimal(index_of(d) as nat) + "</sup></a>".spec_bytes()
        + "</p>".spec_bytes());
}

/// `[^` after text starts a footnote marker and writes nothing yet.
proof fn lemma_marker_open(e: Engine)
    requires
        e.prev == C::Content || e.prev == C::Whitespace,
        e.stack == seq![TagM::P],
    ensures
        run_from(e, seq![91u8, 94u8]) == Some(
            Engine { prev: C::Caret, stack: e.stack, out: e.out },
        ),
{
    reveal(step);
    assert(seq![91u8, 94u8] =~= seq![91u8] + seq![94u8]);
    lemma_run_from_concat(e, seq![91u8], seq![94u8]);
    lemma_run_one(e, 91u8);
    let e1 = step(e, 91u8)->Some_0;
    lemma_run_one(e1, 94u8);
}

/// `]` after the digits, then the end of input: the reference's anchor,
/// then the paragraph's close.
proof fn lemma_marker_close(e: Engine)
    requires
        e.prev == C::Digit,
        e.stack.len() == 2,
        e.stack[0] is FnLink,
        e.stack[1] == TagM::P,
    ensures
        step(e, 93u8) is Some,
        finish(step(e, 93u8)->Some_0).out == e.out + close_html(e.stack[0]) + "</p>".spec_bytes(),
{
    reveal(step);
    let r = resolve(step(e, 93u8)->Some_0);
    assert(r.stack =~= seq![TagM::P]);
    assert(drain_out(r.stack) =~= "</p>".spec_bytes()) by {
        assert(r.stack.drop_first() =~= Seq::<TagM>::empty());
        reveal_with_fuel(drain_out, 2);
    }
}

} // verus!
