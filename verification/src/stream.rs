//! What the item parser makes of whole token streams.

use crate::model::ItemView;
use crate::parser::{
    item_at, reaction, run, stack_after, step, Machine, ITEM, PUBDATE, SUB, TITLE,
};
use crate::xml::{Scanned, TokenView};
use vstd::prelude::*;

verus! {

/// A start tag named `item`.
pub open spec fn opens_item(token: TokenView) -> bool {
    token matches TokenView::Start(name) && name == ITEM@
}

/// An end tag named `item`.
pub open spec fn closes_item(token: TokenView) -> bool {
    token matches TokenView::End(name) && name == ITEM@
}

/// No token of the stream is a start tag named `item`.
pub open spec fn no_item_start(tokens: Seq<Scanned>) -> bool {
    forall|i: int| 0 <= i < tokens.len() ==> !opens_item((#[trigger] tokens[i]).token)
}

/// No token of the stream is an end tag named `item`.
pub open spec fn no_item_end(tokens: Seq<Scanned>) -> bool {
    forall|i: int| 0 <= i < tokens.len() ==> !closes_item((#[trigger] tokens[i]).token)
}

/// No open tag is `item`.
pub open spec fn item_free(stack: Seq<Seq<u8>>) -> bool {
    forall|i: int| 0 <= i < stack.len() ==> #[trigger] stack[i] != ITEM@
}

/// Running over two streams in turn is running over both at once.
pub proof fn lemma_run_concat(m: Machine, a: Seq<Scanned>, b: Seq<Scanned>)
    ensures
        run(m, a + b) == run(run(m, a), b),
    decreases a.len(),
{
    if a.len() == 0 {
        assert(a + b =~= b);
    } else {
        assert((a + b)[0] == a[0]);
        assert((a + b).skip(1) =~= a.skip(1) + b);
        lemma_run_concat(step(m, a[0].token, a[0].end), a.skip(1), b);
    }
}

/// Only an end tag named `item` closes an item.
pub proof fn lemma_item_end(stack: Seq<Seq<u8>>, token: TokenView)
    ensures
        reaction(stack, token) is ItemEnd <==> closes_item(token) && item_at(stack, 1),
{
}

/// Tokens without an end tag named `item` add no item and leave the
/// committed offset where it was, whatever else they hold. An item that is
/// still open when a window ends is therefore never handed out, not even
/// in part.
pub proof fn lemma_open_item_is_dropped(m: Machine, tokens: Seq<Scanned>)
    requires
        no_item_end(tokens),
    ensures
        run(m, tokens).items == m.items,
        run(m, tokens).total_bytes == m.total_bytes,
    decreases tokens.len(),
{
    if tokens.len() > 0 {
        let rest = tokens.skip(1);
        assert forall|i: int| 0 <= i < rest.len() implies !closes_item((#[trigger] rest[i]).token) by {
            assert(rest[i] == tokens[i + 1]);
        }
        assert(!closes_item(tokens[0].token));
        lemma_item_end(m.stack, tokens[0].token);
        lemma_open_item_is_dropped(step(m, tokens[0].token, tokens[0].end), rest);
    }
}

/// Items are only ever added, and while none is added the committed offset
/// stays where it was.
pub proof fn lemma_items_grow(m: Machine, tokens: Seq<Scanned>)
    ensures
        run(m, tokens).items.len() >= m.items.len(),
        run(m, tokens).items.len() == m.items.len() ==> run(m, tokens).items == m.items && run(
            m,
            tokens,
        ).total_bytes == m.total_bytes,
    decreases tokens.len(),
{
    if tokens.len() > 0 {
        lemma_items_grow(step(m, tokens[0].token, tokens[0].end), tokens.skip(1));
    }
}

/// With no `item` among the open tags, a token that opens none changes
/// neither the item under way nor what has been committed.
proof fn lemma_junk_step(m: Machine, token: TokenView, end: nat)
    requires
        item_free(m.stack),
        !opens_item(token),
    ensures
        step(m, token, end).items == m.items,
        step(m, token, end).total_bytes == m.total_bytes,
        step(m, token, end).current == m.current,
        item_free(step(m, token, end).stack),
{
    let stack = m.stack;
    assert(!item_at(stack, 1)) by {
        if stack.len() >= 1 {
            assert(stack[stack.len() - 1] != ITEM@);
        }
    }
    assert(!item_at(stack, 2)) by {
        if stack.len() >= 2 {
            assert(stack[stack.len() - 2] != ITEM@);
        }
    }
    let state = reaction(stack, token);
    assert(state is Empty || state is Eof);
    let after = stack_after(stack, token);
    assert forall|i: int| 0 <= i < after.len() implies #[trigger] after[i] != ITEM@ by {
        match token {
            TokenView::Start(name) => {
                if i < stack.len() {
                    assert(after[i] == stack[i]);
                }
            },
            TokenView::End(_) => {
                assert(after[i] == stack[i]);
            },
            _ => {},
        }
    }
}

/// Markup outside any item is passed over: from a state with no `item`
/// open, tokens that open none leave the item under way, the items and the
/// committed offset as they were, and still no `item` is open.
pub proof fn lemma_junk(m: Machine, tokens: Seq<Scanned>)
    requires
        item_free(m.stack),
        no_item_start(tokens),
    ensures
        run(m, tokens).items == m.items,
        run(m, tokens).total_bytes == m.total_bytes,
        run(m, tokens).current == m.current,
        item_free(run(m, tokens).stack),
    decreases tokens.len(),
{
    if tokens.len() > 0 {
        let rest = tokens.skip(1);
        assert forall|i: int| 0 <= i < rest.len() implies !opens_item((#[trigger] rest[i]).token) by {
            assert(rest[i] == tokens[i + 1]);
        }
        assert(!opens_item(tokens[0].token));
        lemma_junk_step(m, tokens[0].token, tokens[0].end);
        lemma_junk(step(m, tokens[0].token, tokens[0].end), rest);
    }
}

/// The inside of a well-formed item, read at nesting depth `depth` below
/// the item: it opens no tag named `item`, closes no tag that it did not
/// open, and leaves none of its own open.
pub open spec fn nested(tokens: Seq<Scanned>, depth: nat) -> bool
    decreases tokens.len(),
{
    if tokens.len() == 0 {
        depth == 0
    } else {
        match tokens[0].token {
            TokenView::Start(name) => name != ITEM@ && nested(tokens.skip(1), depth + 1),
            TokenView::End(_) => depth > 0 && nested(tokens.skip(1), (depth - 1) as nat),
            _ => nested(tokens.skip(1), depth),
        }
    }
}

/// The state right after `<item>`, with nothing around it.
pub open spec fn inside_item(current: ItemView) -> Machine {
    Machine { stack: seq![ITEM@], current, ..Machine::start() }
}

/// What the inside of an item adds to the item under way.
pub open spec fn gathered(current: ItemView, body: Seq<Scanned>) -> ItemView {
    run(inside_item(current), body).current
}

/// The item that a block gives: what its inside adds to an empty item.
pub open spec fn item_of(body: Seq<Scanned>) -> ItemView {
    gathered(ItemView::empty(), body)
}

/// One step inside an item means the same whatever is open around the item.
proof fn lemma_body_step(
    m1: Machine,
    m2: Machine,
    b1: Seq<Seq<u8>>,
    b2: Seq<Seq<u8>>,
    s: Seq<Seq<u8>>,
    token: TokenView,
    end: nat,
)
    requires
        m1.stack == b1.push(ITEM@) + s,
        m2.stack == b2.push(ITEM@) + s,
        item_free(s),
        m1.current == m2.current,
        !opens_item(token),
        token is End ==> s.len() > 0,
    ensures
        step(m1, token, end).stack == b1.push(ITEM@) + stack_after(s, token),
        step(m2, token, end).stack == b2.push(ITEM@) + stack_after(s, token),
        item_free(stack_after(s, token)),
        step(m1, token, end).current == step(m2, token, end).current,
        step(m1, token, end).items == m1.items,
        step(m2, token, end).items == m2.items,
        step(m1, token, end).total_bytes == m1.total_bytes,
        step(m2, token, end).total_bytes == m2.total_bytes,
{
    let n1 = m1.stack.len() as int;
    let n2 = m2.stack.len() as int;
    let d = s.len() as int;
    assert(ITEM@.len() == 4 && TITLE@.len() == 5 && SUB@.len() == 15 && PUBDATE@.len() == 7);
    if d > 0 {
        assert(m1.stack[n1 - 1] == s[d - 1]);
        assert(m2.stack[n2 - 1] == s[d - 1]);
        assert(s[d - 1] != ITEM@);
    } else {
        assert(m1.stack[n1 - 1] == ITEM@);
        assert(m2.stack[n2 - 1] == ITEM@);
    }
    assert(item_at(m1.stack, 1) == (d == 0));
    assert(item_at(m2.stack, 1) == (d == 0));
    if d >= 2 {
        assert(m1.stack[n1 - 2] == s[d - 2]);
        assert(m2.stack[n2 - 2] == s[d - 2]);
        assert(s[d - 2] != ITEM@);
    } else if d == 1 {
        assert(m1.stack[n1 - 2] == ITEM@);
        assert(m2.stack[n2 - 2] == ITEM@);
    }
    assert(d >= 1 ==> item_at(m1.stack, 2) == (d == 1));
    assert(d >= 1 ==> item_at(m2.stack, 2) == (d == 1));
    assert(m1.stack.last() == m2.stack.last());
    assert(reaction(m1.stack, token) == reaction(m2.stack, token));
    assert(!(reaction(m1.stack, token) is ItemEnd));
    let after = stack_after(s, token);
    assert(stack_after(m1.stack, token) =~= b1.push(ITEM@) + after);
    assert(stack_after(m2.stack, token) =~= b2.push(ITEM@) + after);
    assert forall|i: int| 0 <= i < after.len() implies #[trigger] after[i] != ITEM@ by {
        match token {
            TokenView::Start(name) => {
                if i < s.len() {
                    assert(after[i] == s[i]);
                }
            },
            TokenView::End(_) => {
                assert(after[i] == s[i]);
            },
            _ => {},
        }
    }
}

/// The inside of a well-formed item is read the same way whatever is open
/// around the item: it closes nothing, commits nothing, leaves the item
/// open, and gathers the same fields.
proof fn lemma_body(
    m1: Machine,
    m2: Machine,
    b1: Seq<Seq<u8>>,
    b2: Seq<Seq<u8>>,
    s: Seq<Seq<u8>>,
    body: Seq<Scanned>,
)
    requires
        nested(body, s.len()),
        m1.stack == b1.push(ITEM@) + s,
        m2.stack == b2.push(ITEM@) + s,
        item_free(s),
        m1.current == m2.current,
    ensures
        run(m1, body).stack == b1.push(ITEM@),
        run(m2, body).stack == b2.push(ITEM@),
        run(m1, body).current == run(m2, body).current,
        run(m1, body).items == m1.items,
        run(m2, body).items == m2.items,
        run(m1, body).total_bytes == m1.total_bytes,
        run(m2, body).total_bytes == m2.total_bytes,
    decreases body.len(),
{
    if body.len() == 0 {
        assert(s =~= Seq::empty());
        assert(b1.push(ITEM@) + s =~= b1.push(ITEM@));
        assert(b2.push(ITEM@) + s =~= b2.push(ITEM@));
    } else {
        let token = body[0].token;
        let end = body[0].end;
        lemma_body_step(m1, m2, b1, b2, s, token, end);
        let after = stack_after(s, token);
        assert(nested(body.skip(1), after.len()));
        lemma_body(step(m1, token, end), step(m2, token, end), b1, b2, after, body.skip(1));
    }
}

/// A whole item: `<item>`, its inside, `</item>`, with the offsets that the
/// tokenizer reports after the two tags.
pub open spec fn block(open_end: nat, body: Seq<Scanned>, close_end: nat) -> Seq<Scanned> {
    seq![Scanned { token: TokenView::Start(ITEM@), end: open_end }] + body + seq![
        Scanned { token: TokenView::End(ITEM@), end: close_end },
    ]
}

/// A well-formed item is handed out whole, wherever it stands: after it the
/// same tags are open as before, one item has been added, which holds what
/// its inside gathered, a new item is under way, and the committed offset
/// is the one that the tokenizer reported after `</item>`.
pub proof fn lemma_block(m: Machine, open_end: nat, body: Seq<Scanned>, close_end: nat)
    requires
        nested(body, 0),
    ensures
        run(m, block(open_end, body, close_end)).stack == m.stack,
        run(m, block(open_end, body, close_end)).items == m.items.push(gathered(m.current, body)),
        run(m, block(open_end, body, close_end)).current == ItemView::empty(),
        run(m, block(open_end, body, close_end)).total_bytes == close_end,
{
    let open = seq![Scanned { token: TokenView::Start(ITEM@), end: open_end }];
    let close = seq![Scanned { token: TokenView::End(ITEM@), end: close_end }];
    let opened = step(m, TokenView::Start(ITEM@), open_end);
    assert(run(m, open) == opened) by {
        assert(open.skip(1) =~= Seq::<Scanned>::empty());
        assert(run(opened, open.skip(1)) == opened);
    }
    lemma_run_concat(m, open + body, close);
    lemma_run_concat(m, open, body);
    let inner = run(opened, body);
    assert(run(m, block(open_end, body, close_end)) == run(inner, close));
    let bare = inside_item(m.current);
    assert(opened.stack =~= m.stack.push(ITEM@) + Seq::<Seq<u8>>::empty());
    assert(bare.stack =~= Seq::<Seq<u8>>::empty().push(ITEM@) + Seq::<Seq<u8>>::empty());
    lemma_body(opened, bare, m.stack, Seq::empty(), Seq::empty(), body);
    let closed = step(inner, TokenView::End(ITEM@), close_end);
    assert(run(inner, close) == closed) by {
        assert(close.skip(1) =~= Seq::<Scanned>::empty());
        assert(run(closed, close.skip(1)) == closed);
    }
    assert(inner.stack.last() == ITEM@);
    assert(item_at(inner.stack, 1));
    assert(closed.stack =~= m.stack);
}

/// A stretch of a feed: markup outside any item, or one whole item.
pub enum Part {
    /// Tokens that open no tag named `item`.
    Junk(Seq<Scanned>),
    /// `<item>`, its inside, `</item>`, with the offsets after the two tags.
    Block(nat, Seq<Scanned>, nat),
}

/// The tokens of one stretch.
pub open spec fn part_tokens(part: Part) -> Seq<Scanned> {
    match part {
        Part::Junk(tokens) => tokens,
        Part::Block(open_end, body, close_end) => block(open_end, body, close_end),
    }
}

/// The tokens of a feed that is made of these stretches, in order.
pub open spec fn feed_tokens(parts: Seq<Part>) -> Seq<Scanned>
    decreases parts.len(),
{
    if parts.len() == 0 {
        Seq::empty()
    } else {
        feed_tokens(parts.drop_last()) + part_tokens(parts.last())
    }
}

/// The items of a feed: one for each whole item, in document order.
pub open spec fn feed_items(parts: Seq<Part>) -> Seq<ItemView>
    decreases parts.len(),
{
    if parts.len() == 0 {
        Seq::empty()
    } else {
        match parts.last() {
            Part::Junk(_) => feed_items(parts.drop_last()),
            Part::Block(_, body, _) => feed_items(parts.drop_last()).push(item_of(body)),
        }
    }
}

/// The offset after the last `</item>` of a feed, 0 where it has no item.
pub open spec fn feed_end(parts: Seq<Part>) -> nat
    decreases parts.len(),
{
    if parts.len() == 0 {
        0
    } else {
        match parts.last() {
            Part::Junk(_) => feed_end(parts.drop_last()),
            Part::Block(_, _, close_end) => close_end,
        }
    }
}

/// Every item of the feed is well-formed, and no tag named `item` is opened
/// outside them.
pub open spec fn well_formed(parts: Seq<Part>) -> bool {
    forall|i: int|
        0 <= i < parts.len() ==> match #[trigger] parts[i] {
            Part::Junk(tokens) => no_item_start(tokens),
            Part::Block(_, body, _) => nested(body, 0),
        }
}

/// A window that covers N well-formed items, with whatever markup before,
/// between and after them that opens no `item`, yields exactly those N
/// items, in document order, each holding what its own inside gathered,
/// and commits the offset after the last `</item>`. This holds from the
/// first token on, so a window may start in the middle of the document,
/// with no root and with end tags whose start it never saw.
pub proof fn lemma_whole_items(parts: Seq<Part>)
    requires
        well_formed(parts),
    ensures
        run(Machine::start(), feed_tokens(parts)).items == feed_items(parts),
        run(Machine::start(), feed_tokens(parts)).total_bytes == feed_end(parts),
        run(Machine::start(), feed_tokens(parts)).current == ItemView::empty(),
        item_free(run(Machine::start(), feed_tokens(parts)).stack),
    decreases parts.len(),
{
    if parts.len() > 0 {
        let before = parts.drop_last();
        assert forall|i: int| 0 <= i < before.len() implies match #[trigger] before[i] {
            Part::Junk(tokens) => no_item_start(tokens),
            Part::Block(_, body, _) => nested(body, 0),
        } by {
            assert(before[i] == parts[i]);
        }
        lemma_whole_items(before);
        let m = run(Machine::start(), feed_tokens(before));
        lemma_run_concat(Machine::start(), feed_tokens(before), part_tokens(parts.last()));
        assert(parts[parts.len() - 1] == parts.last());
        match parts.last() {
            Part::Junk(tokens) => {
                lemma_junk(m, tokens);
            },
            Part::Block(open_end, body, close_end) => {
                lemma_block(m, open_end, body, close_end);
            },
        }
    }
}

/// When a window of whole items ends inside the next item, before its
/// `</item>`, the items and the committed offset are those of the whole
/// items alone.
pub proof fn lemma_cut_item_is_dropped(parts: Seq<Part>, cut: Seq<Scanned>)
    requires
        well_formed(parts),
        no_item_end(cut),
    ensures
        run(Machine::start(), feed_tokens(parts) + cut).items == feed_items(parts),
        run(Machine::start(), feed_tokens(parts) + cut).total_bytes == feed_end(parts),
{
    lemma_whole_items(parts);
    lemma_run_concat(Machine::start(), feed_tokens(parts), cut);
    lemma_open_item_is_dropped(run(Machine::start(), feed_tokens(parts)), cut);
}

/// A window that starts anywhere outside an item, reads markup that opens
/// no `item`, and then one well-formed item, yields that item alone, and
/// commits the offset that the tokenizer reported after its `</item>`.
pub proof fn lemma_restart(junk: Seq<Scanned>, open_end: nat, body: Seq<Scanned>, close_end: nat)
    requires
        no_item_start(junk),
        nested(body, 0),
    ensures
        run(Machine::start(), junk + block(open_end, body, close_end)).items == seq![
            item_of(body),
        ],
        run(Machine::start(), junk + block(open_end, body, close_end)).total_bytes == close_end,
{
    let start = Machine::start();
    lemma_junk(start, junk);
    lemma_run_concat(start, junk, block(open_end, body, close_end));
    lemma_block(run(start, junk), open_end, body, close_end);
    assert(start.items.push(item_of(body)) =~= seq![item_of(body)]);
}

/// The same tokens, `by` bytes further on in the document.
pub open spec fn shifted(tokens: Seq<Scanned>, by: nat) -> Seq<Scanned> {
    tokens.map_values(|t: Scanned| Scanned { token: t.token, end: t.end + by })
}

/// The tags below that are left once a token has been read above them: an
/// end tag closes the innermost of them when nothing is open above.
pub open spec fn left_below(below: Seq<Seq<u8>>, above: Seq<Seq<u8>>, token: TokenView) -> Seq<
    Seq<u8>,
> {
    if token is End && above.len() == 0 && below.len() > 0 {
        below.drop_last()
    } else {
        below
    }
}

/// One step means the same with tags below that are not `item`.
proof fn lemma_resume_step(
    m1: Machine,
    m2: Machine,
    below: Seq<Seq<u8>>,
    token: TokenView,
    end: nat,
    by: nat,
)
    requires
        m1.stack == below + m2.stack,
        item_free(below),
        m1.current == m2.current,
    ensures
        reaction(m1.stack, token) == reaction(m2.stack, token),
        step(m1, token, end + by).current == step(m2, token, end).current,
        step(m1, token, end + by).stack == left_below(below, m2.stack, token) + step(
            m2,
            token,
            end,
        ).stack,
        item_free(left_below(below, m2.stack, token)),
{
    let n1 = m1.stack.len() as int;
    let n2 = m2.stack.len() as int;
    let b = below.len() as int;
    if n2 >= 1 {
        assert(m1.stack[n1 - 1] == m2.stack[n2 - 1]);
    } else if b >= 1 {
        assert(m1.stack[n1 - 1] == below[b - 1]);
        assert(below[b - 1] != ITEM@);
    }
    assert(item_at(m1.stack, 1) == item_at(m2.stack, 1));
    if n2 >= 2 {
        assert(m1.stack[n1 - 2] == m2.stack[n2 - 2]);
    } else if n1 >= 2 {
        assert(m1.stack[n1 - 2] == below[n1 - 2]);
        assert(below[n1 - 2] != ITEM@);
    }
    assert(item_at(m1.stack, 2) == item_at(m2.stack, 2));
    if n2 >= 1 {
        assert(m1.stack.last() == m2.stack.last());
    }
    assert(reaction(m1.stack, token) == reaction(m2.stack, token));
    let kept = left_below(below, m2.stack, token);
    assert(stack_after(m1.stack, token) =~= kept + stack_after(m2.stack, token));
    assert forall|i: int| 0 <= i < kept.len() implies #[trigger] kept[i] != ITEM@ by {
        assert(kept[i] == below[i]);
    }
}

/// Tags below that are not `item` change nothing: two runs over the same
/// tokens, the first with such tags below and its offsets `by` further on,
/// gather the same, and the first commits `by` further on.
proof fn lemma_resume_run(
    m1: Machine,
    m2: Machine,
    below: Seq<Seq<u8>>,
    earlier: Seq<ItemView>,
    tokens: Seq<Scanned>,
    by: nat,
)
    requires
        m1.stack == below + m2.stack,
        item_free(below),
        m1.current == m2.current,
        m1.items == earlier + m2.items,
        m1.total_bytes == by + m2.total_bytes,
    ensures
        run(m1, shifted(tokens, by)).items == earlier + run(m2, tokens).items,
        run(m1, shifted(tokens, by)).total_bytes == by + run(m2, tokens).total_bytes,
        run(m1, shifted(tokens, by)).current == run(m2, tokens).current,
    decreases tokens.len(),
{
    if tokens.len() > 0 {
        let token = tokens[0].token;
        let end = tokens[0].end;
        let moved = shifted(tokens, by);
        assert(moved[0] == Scanned { token, end: end + by });
        assert(moved.skip(1) =~= shifted(tokens.skip(1), by));
        lemma_resume_step(m1, m2, below, token, end, by);
        let n1 = step(m1, token, end + by);
        let n2 = step(m2, token, end);
        let kept = left_below(below, m2.stack, token);
        assert(n1.items =~= earlier + n2.items);
        lemma_resume_run(n1, n2, kept, earlier, tokens.skip(1), by);
    } else {
        assert(shifted(tokens, by) =~= Seq::<Scanned>::empty());
    }
}

/// Let a first window end at or after a closed item boundary, the place
/// where `head` ends with no `item` open and no item under way, and let no
/// item close in its `tail`. The window that starts at the offset which the
/// first one committed reads `rest`, with offsets counted from its own
/// start. Then the two windows together yield the items of one pass over
/// `head` and `rest`, none twice and none missing, and their committed
/// offsets add up to the one of that pass.
pub proof fn lemma_resume(head: Seq<Scanned>, tail: Seq<Scanned>, rest: Seq<Scanned>)
    requires
        item_free(run(Machine::start(), head).stack),
        run(Machine::start(), head).current == ItemView::empty(),
        run(Machine::start(), head + tail).items == run(Machine::start(), head).items,
    ensures
        ({
            let first = run(Machine::start(), head + tail);
            let second = run(Machine::start(), rest);
            let through = run(Machine::start(), head + shifted(rest, first.total_bytes));
            &&& through.items == first.items + second.items
            &&& through.total_bytes == first.total_bytes + second.total_bytes
        }),
{
    let start = Machine::start();
    let boundary = run(start, head);
    lemma_run_concat(start, head, tail);
    lemma_items_grow(boundary, tail);
    let first = run(start, head + tail);
    let by = first.total_bytes;
    lemma_run_concat(start, head, shifted(rest, by));
    assert(boundary.stack =~= boundary.stack + start.stack);
    assert(boundary.items =~= boundary.items + start.items);
    lemma_resume_run(boundary, start, boundary.stack, boundary.items, rest, by);
}

} // verus!
