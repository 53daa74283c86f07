//! Delta-compressed draw command buffer.
//!
//! A draw command is written as a word of flags followed by the
//! parameters that changed since the draw before; the flags say which
//! parameters follow. The reader keeps the parameters of the draw before
//! and overwrites the ones that follow the flags.
//!
//! Based on the design described in
//!
//!   Sebastian Aaltonen. 2023. HypeHype Mobile Rendering Architecture.
//!   Presentation at ACM SIGGRAPH 2023, Advances in Real-Time Rendering in Games, Los Angeles, CA, USA.

use crate::error::Error;
use vstd::prelude::*;

verus! {

/// The parameters of one draw.
#[derive(Copy, Clone, Debug, PartialEq, Eq, Structural)]
pub struct Draw {
    pub instance_base: u32,
    pub instance_count: u32,
    pub vertex_base: u32,
    pub vertex_count: u32,
}

/// The parameters before the first draw: one instance, nothing else.
pub open spec fn initial_draw() -> Draw {
    Draw { instance_base: 0, instance_count: 1, vertex_base: 0, vertex_count: 0 }
}

impl Default for Draw {
    fn default() -> (draw: Draw)
        ensures
            draw == initial_draw(),
    {
        Draw { instance_base: 0, instance_count: 1, vertex_base: 0, vertex_count: 0 }
    }
}

/// The flag that says that the instance base follows.
pub const DRAW_INSTANCE_BASE: u32 = 0x1000_0000;

/// The flag that says that the instance count follows.
pub const DRAW_INSTANCE_COUNT: u32 = 0x2000_0000;

/// The flag that says that the vertex base follows.
pub const DRAW_VERTEX_BASE: u32 = 0x4000_0000;

/// The flag that says that the vertex count follows.
pub const DRAW_VERTEX_COUNT: u32 = 0x8000_0000;

/// All flags.
pub const DRAW_ALL: u32 = 0xf000_0000;

/// Is the flag `flag` set in `flags`?
pub open spec fn flagged(flags: u32, flag: u32) -> bool {
    flags & flag == flag
}

/// The flags of the parameters in which `draw` differs from `prev`.
pub open spec fn changed(prev: Draw, draw: Draw) -> u32 {
    (if draw.instance_base != prev.instance_base {
        DRAW_INSTANCE_BASE
    } else {
        0u32
    }) | (if draw.instance_count != prev.instance_count {
        DRAW_INSTANCE_COUNT
    } else {
        0u32
    }) | (if draw.vertex_base != prev.vertex_base {
        DRAW_VERTEX_BASE
    } else {
        0u32
    }) | (if draw.vertex_count != prev.vertex_count {
        DRAW_VERTEX_COUNT
    } else {
        0u32
    })
}

/// The word `value` if the flag is set, else nothing.
pub open spec fn word_if(flags: u32, flag: u32, value: u32) -> Seq<u32> {
    if flagged(flags, flag) {
        seq![value]
    } else {
        Seq::empty()
    }
}

/// The parameters of `draw` that the flags announce, in the order in which
/// they are written: instance count, instance base, vertex count, vertex
/// base.
pub open spec fn payload(flags: u32, draw: Draw) -> Seq<u32> {
    word_if(flags, DRAW_INSTANCE_COUNT, draw.instance_count) + word_if(
        flags,
        DRAW_INSTANCE_BASE,
        draw.instance_base,
    ) + word_if(flags, DRAW_VERTEX_COUNT, draw.vertex_count) + word_if(
        flags,
        DRAW_VERTEX_BASE,
        draw.vertex_base,
    )
}

/// The words of one draw: the flags, then the parameters that they
/// announce.
pub open spec fn record(flags: u32, draw: Draw) -> Seq<u32> {
    seq![flags] + payload(flags, draw)
}

/// Writes draw commands into a buffer of words.
pub struct CommandWriter<'a> {
    state: Draw,
    flags: u32,
    data: &'a mut Vec<u32>,
}

impl<'a> CommandWriter<'a> {
    /// The parameters of the draw that was written last.
    pub closed spec fn state(&self) -> Draw {
        self.state
    }

    /// The flags of the parameters that have to be written with the next
    /// draw whether they change or not.
    pub closed spec fn pending(&self) -> u32 {
        self.flags
    }

    /// The words written so far, with what the buffer held before.
    pub closed spec fn data(&self) -> Seq<u32> {
        self.data@
    }

    /// The borrow of the buffer that the writer holds.
    pub closed spec fn buffer(&self) -> &'a mut Vec<u32> {
        self.data
    }

    /// A writer that appends to `data`. The first draw is written with all
    /// its parameters.
    pub fn new(data: &'a mut Vec<u32>) -> (writer: CommandWriter<'a>)
        ensures
            writer.state() == initial_draw(),
            writer.pending() == DRAW_ALL,
            writer.data() == old(data)@,
            *final(data) == *final(writer.buffer()),
    {
        CommandWriter {
            state: Draw { instance_base: 0, instance_count: 1, vertex_base: 0, vertex_count: 0 },
            flags: DRAW_ALL,
            data,
        }
    }

    /// Ends the writing and gives the buffer back: it holds what it held
    /// before, and after that the words that were written.
    pub fn finish(self)
        ensures
            (*final(self.buffer()))@ == self.data(),
    {
    }

    /// Writes the flags and the parameters that they announce.
    fn flush(&mut self)
        ensures
            final(self).state() == old(self).state(),
            final(self).pending() == 0,
            final(self).data() == old(self).data() + record(old(self).pending(), old(self).state()),
            *final(final(self).buffer()) == *final(old(self).buffer()),
    {
        let flags = self.flags;
        self.data.push(flags);
        if flags & DRAW_INSTANCE_COUNT == DRAW_INSTANCE_COUNT {
            let value = self.state.instance_count;
            self.write_u32(value);
        }
        if flags & DRAW_INSTANCE_BASE == DRAW_INSTANCE_BASE {
            let value = self.state.instance_base;
            self.write_u32(value);
        }
        if flags & DRAW_VERTEX_COUNT == DRAW_VERTEX_COUNT {
            let value = self.state.vertex_count;
            self.write_u32(value);
        }
        if flags & DRAW_VERTEX_BASE == DRAW_VERTEX_BASE {
            let value = self.state.vertex_base;
            self.write_u32(value);
        }
        self.flags = 0;
        assert(self.data@ =~= old(self).data@ + record(flags, self.state));
    }

    fn write_u32(&mut self, value: u32)
        ensures
            final(self).state() == old(self).state(),
            final(self).pending() == old(self).pending(),
            final(self).data() == old(self).data().push(value),
            *final(final(self).buffer()) == *final(old(self).buffer()),
    {
        self.data.push(value);
    }

    /// Writes one draw: the parameters that differ from the draw before,
    /// and those that are pending.
    pub fn draw(&mut self, instance_base: u32, instance_count: u32, vertex_base: u32, vertex_count: u32)
        ensures
            final(self).state() == (Draw { instance_base, instance_count, vertex_base, vertex_count }),
            final(self).pending() == 0,
            final(self).data() == old(self).data() + record(
                old(self).pending() | changed(old(self).state(), final(self).state()),
                final(self).state(),
            ),
            *final(final(self).buffer()) == *final(old(self).buffer()),
    {
        let ghost target = Draw { instance_base, instance_count, vertex_base, vertex_count };
        let ghost pending = self.flags;
        let ghost prev = self.state;
        let ghost f0: u32 = if instance_base != prev.instance_base {
            DRAW_INSTANCE_BASE
        } else {
            0u32
        };
        let ghost f1: u32 = if instance_count != prev.instance_count {
            DRAW_INSTANCE_COUNT
        } else {
            0u32
        };
        let ghost f2: u32 = if vertex_base != prev.vertex_base {
            DRAW_VERTEX_BASE
        } else {
            0u32
        };
        let ghost f3: u32 = if vertex_count != prev.vertex_count {
            DRAW_VERTEX_COUNT
        } else {
            0u32
        };
        if instance_base != self.state.instance_base {
            self.state.instance_base = instance_base;
            self.flags = self.flags | DRAW_INSTANCE_BASE;
        }
        if instance_count != self.state.instance_count {
            self.state.instance_count = instance_count;
            self.flags = self.flags | DRAW_INSTANCE_COUNT;
        }
        if vertex_base != self.state.vertex_base {
            self.state.vertex_base = vertex_base;
            self.flags = self.flags | DRAW_VERTEX_BASE;
        }
        if vertex_count != self.state.vertex_count {
            self.state.vertex_count = vertex_count;
            self.flags = self.flags | DRAW_VERTEX_COUNT;
        }
        proof {
            let now = self.flags;
            let g0 = pending | f0;
            let g1 = g0 | f1;
            let g2 = g1 | f2;
            assert(pending | 0u32 == pending) by (bit_vector);
            assert(g0 | 0u32 == g0) by (bit_vector);
            assert(g1 | 0u32 == g1) by (bit_vector);
            assert(g2 | 0u32 == g2) by (bit_vector);
            assert(now == (((pending | f0) | f1) | f2) | f3);
            assert((((pending | f0) | f1) | f2) | f3 == pending | (f0 | f1 | f2 | f3)) by (bit_vector);
            assert(now == pending | changed(prev, target));
        }
        self.flush();
    }
}

/// The value that follows the flags for the parameter with the flag
/// `flag`, and the place after it; the parameter keeps its value `current`
/// where the flag is not set. Nothing where the words end too early.
pub open spec fn take(flags: u32, flag: u32, words: Seq<u32>, pos: int, current: u32) -> Option<
    (u32, int),
> {
    if flagged(flags, flag) {
        if pos < words.len() {
            Some((words[pos], pos + 1))
        } else {
            None
        }
    } else {
        Some((current, pos))
    }
}

/// The draw that the words from place `pos` on spell out after the draw
/// `state`, and the place after it. Nothing where the words end in the
/// middle of the draw.
pub open spec fn decode(state: Draw, words: Seq<u32>, pos: int) -> Option<(Draw, int)> {
    let flags = words[pos] & DRAW_ALL;
    match take(flags, DRAW_INSTANCE_COUNT, words, pos + 1, state.instance_count) {
        None => None,
        Some((instance_count, at_base)) => match take(
            flags,
            DRAW_INSTANCE_BASE,
            words,
            at_base,
            state.instance_base,
        ) {
            None => None,
            Some((instance_base, at_count)) => match take(
                flags,
                DRAW_VERTEX_COUNT,
                words,
                at_count,
                state.vertex_count,
            ) {
                None => None,
                Some((vertex_count, at_vertex)) => match take(
                    flags,
                    DRAW_VERTEX_BASE,
                    words,
                    at_vertex,
                    state.vertex_base,
                ) {
                    None => None,
                    Some((vertex_base, at_end)) => Some(
                        (Draw { instance_base, instance_count, vertex_base, vertex_count }, at_end),
                    ),
                },
            },
        },
    }
}

/// What is written is read back: after the draw `prev`, the words of the
/// draw `draw`, written with flags that announce at least the parameters
/// that changed, spell out `draw`.
pub proof fn lemma_read_back(prev: Draw, flags: u32, draw: Draw, before: Seq<u32>, after: Seq<u32>)
    requires
        flags & DRAW_ALL == flags,
        flags & changed(prev, draw) == changed(prev, draw),
    ensures
        decode(prev, before + record(flags, draw) + after, before.len() as int) == Some(
            (draw, (before.len() + record(flags, draw).len()) as int),
        ),
{
    let words = before + record(flags, draw) + after;
    let start = before.len() as int;
    let c = changed(prev, draw);
    assert(words[start] == flags);
    assert(flags & DRAW_ALL == flags);
    let ic = word_if(flags, DRAW_INSTANCE_COUNT, draw.instance_count);
    let ib = word_if(flags, DRAW_INSTANCE_BASE, draw.instance_base);
    let vc = word_if(flags, DRAW_VERTEX_COUNT, draw.vertex_count);
    let vb = word_if(flags, DRAW_VERTEX_BASE, draw.vertex_base);
    let rec = record(flags, draw);
    assert(rec =~= seq![flags] + ic + ib + vc + vb);
    assert forall|i: int| 0 <= i < rec.len() implies words[start + i] == rec[i] by {}
    // A parameter whose flag is not set did not change.
    let f0: u32 = if draw.instance_base != prev.instance_base {
        DRAW_INSTANCE_BASE
    } else {
        0u32
    };
    let f1: u32 = if draw.instance_count != prev.instance_count {
        DRAW_INSTANCE_COUNT
    } else {
        0u32
    };
    let f2: u32 = if draw.vertex_base != prev.vertex_base {
        DRAW_VERTEX_BASE
    } else {
        0u32
    };
    let f3: u32 = if draw.vertex_count != prev.vertex_count {
        DRAW_VERTEX_COUNT
    } else {
        0u32
    };
    assert(c == f0 | f1 | f2 | f3);
    assert(flags & 0x1000_0000u32 != 0x1000_0000u32 ==> f0 == 0) by (bit_vector)
        requires
            flags & (f0 | f1 | f2 | f3) == (f0 | f1 | f2 | f3),
            f0 == 0x1000_0000u32 || f0 == 0,
    ;
    assert(flags & 0x2000_0000u32 != 0x2000_0000u32 ==> f1 == 0) by (bit_vector)
        requires
            flags & (f0 | f1 | f2 | f3) == (f0 | f1 | f2 | f3),
            f1 == 0x2000_0000u32 || f1 == 0,
    ;
    assert(flags & 0x4000_0000u32 != 0x4000_0000u32 ==> f2 == 0) by (bit_vector)
        requires
            flags & (f0 | f1 | f2 | f3) == (f0 | f1 | f2 | f3),
            f2 == 0x4000_0000u32 || f2 == 0,
    ;
    assert(flags & 0x8000_0000u32 != 0x8000_0000u32 ==> f3 == 0) by (bit_vector)
        requires
            flags & (f0 | f1 | f2 | f3) == (f0 | f1 | f2 | f3),
            f3 == 0x8000_0000u32 || f3 == 0,
    ;
    let at_base = start + 1 + ic.len();
    let at_count = at_base + ib.len();
    let at_vertex = at_count + vc.len();
    let at_end = at_vertex + vb.len();
    if flagged(flags, DRAW_INSTANCE_COUNT) {
        assert(rec[1] == draw.instance_count);
        assert(words[start + 1] == rec[1]);
    }
    assert(take(flags, DRAW_INSTANCE_COUNT, words, start + 1, prev.instance_count) == Some(
        (draw.instance_count, at_base),
    ));
    if flagged(flags, DRAW_INSTANCE_BASE) {
        assert(rec[at_base - start] == draw.instance_base);
        assert(words[at_base] == rec[at_base - start]);
    }
    assert(take(flags, DRAW_INSTANCE_BASE, words, at_base, prev.instance_base) == Some(
        (draw.instance_base, at_count),
    ));
    if flagged(flags, DRAW_VERTEX_COUNT) {
        assert(rec[at_count - start] == draw.vertex_count);
        assert(words[at_count] == rec[at_count - start]);
    }
    assert(take(flags, DRAW_VERTEX_COUNT, words, at_count, prev.vertex_count) == Some(
        (draw.vertex_count, at_vertex),
    ));
    if flagged(flags, DRAW_VERTEX_BASE) {
        assert(rec[at_vertex - start] == draw.vertex_base);
        assert(words[at_vertex] == rec[at_vertex - start]);
    }
    assert(take(flags, DRAW_VERTEX_BASE, words, at_vertex, prev.vertex_base) == Some((draw.vertex_base, at_end)));
}

/// What a writer writes is read back: the words that a writer with the
/// pending flags `pending`, all flags or none, writes for the draw `draw`
/// after the draw `prev` spell out `draw`.
pub proof fn lemma_draw_read_back(prev: Draw, pending: u32, draw: Draw, before: Seq<u32>, after: Seq<u32>)
    requires
        pending == 0 || pending == DRAW_ALL,
    ensures
        decode(
            prev,
            before + record(pending | changed(prev, draw), draw) + after,
            before.len() as int,
        ) == Some(
            (draw, (before.len() + record(pending | changed(prev, draw), draw).len()) as int),
        ),
{
    let c = changed(prev, draw);
    let flags = pending | c;
    assert(c & 0xf000_0000u32 == c) by {
        let f0: u32 = if draw.instance_base != prev.instance_base {
            DRAW_INSTANCE_BASE
        } else {
            0u32
        };
        let f1: u32 = if draw.instance_count != prev.instance_count {
            DRAW_INSTANCE_COUNT
        } else {
            0u32
        };
        let f2: u32 = if draw.vertex_base != prev.vertex_base {
            DRAW_VERTEX_BASE
        } else {
            0u32
        };
        let f3: u32 = if draw.vertex_count != prev.vertex_count {
            DRAW_VERTEX_COUNT
        } else {
            0u32
        };
        assert(c == f0 | f1 | f2 | f3);
        assert((f0 | f1 | f2 | f3) & 0xf000_0000u32 == (f0 | f1 | f2 | f3)) by (bit_vector)
            requires
                f0 == 0x1000_0000u32 || f0 == 0,
                f1 == 0x2000_0000u32 || f1 == 0,
                f2 == 0x4000_0000u32 || f2 == 0,
                f3 == 0x8000_0000u32 || f3 == 0,
        ;
    }
    assert((pending | c) & 0xf000_0000u32 == (pending | c) && (pending | c) & c == c) by (bit_vector)
        requires
            pending == 0 || pending == 0xf000_0000u32,
            c & 0xf000_0000u32 == c,
    ;
    lemma_read_back(prev, flags, draw, before, after);
}

/// The words that a writer writes for the draws `draws`, one after the
/// other, after the draw `prev` and with the pending flags `pending`.
pub open spec fn written(prev: Draw, pending: u32, draws: Seq<Draw>) -> Seq<u32>
    decreases draws.len(),
{
    if draws.len() == 0 {
        Seq::empty()
    } else {
        record(pending | changed(prev, draws[0]), draws[0]) + written(draws[0], 0, draws.drop_first())
    }
}

/// The draws that a reader in the state `state` reads from the place `pos`
/// to the end of the words; none where the words end within a draw.
pub open spec fn read_all(state: Draw, words: Seq<u32>, pos: int) -> Option<Seq<Draw>>
    decreases words.len() - pos,
{
    if pos >= words.len() {
        Some(Seq::empty())
    } else {
        match decode(state, words, pos) {
            None => None,
            Some((draw, next)) => if next <= pos {
                None
            } else {
                match read_all(draw, words, next) {
                    None => None,
                    Some(rest) => Some(seq![draw] + rest),
                }
            },
        }
    }
}

/// Where a reader has no draw left to read, it stands at the end of the
/// words; where it has one left, the next draw that it reads is the first
/// of them.
pub proof fn lemma_read_next(state: Draw, words: Seq<u32>, pos: int, draws: Seq<Draw>)
    requires
        read_all(state, words, pos) == Some(draws),
    ensures
        draws.len() == 0 <==> pos >= words.len(),
        draws.len() > 0 ==> match decode(state, words, pos) {
            Some((draw, next)) => draw == draws[0] && read_all(draw, words, next) == Some(
                draws.drop_first(),
            ),
            None => false,
        },
{
    if pos < words.len() {
        match decode(state, words, pos) {
            None => {},
            Some((draw, next)) => {
                if next > pos {
                    match read_all(draw, words, next) {
                        None => {},
                        Some(rest) => {
                            assert((seq![draw] + rest)[0] == draw);
                            assert((seq![draw] + rest).drop_first() =~= rest);
                        },
                    }
                }
            },
        }
    }
}

/// The state of a writer after the draws `draws`: the last of them, or the
/// state before where there is none.
pub open spec fn state_after(prev: Draw, draws: Seq<Draw>) -> Draw {
    if draws.len() == 0 {
        prev
    } else {
        draws.last()
    }
}

/// The pending flags of a writer after the draws `draws`: none once a draw
/// is written.
pub open spec fn pending_after(pending: u32, draws: Seq<Draw>) -> u32 {
    if draws.len() == 0 {
        pending
    } else {
        0
    }
}

/// One more draw adds its words to the end: the words of the draws
/// `draws` and then `draw` are the words of `draws`, and after them what a
/// writer in the state after `draws` writes for `draw`.
pub proof fn lemma_written_push(prev: Draw, pending: u32, draws: Seq<Draw>, draw: Draw)
    ensures
        written(prev, pending, draws.push(draw)) == written(prev, pending, draws) + record(
            pending_after(pending, draws) | changed(state_after(prev, draws), draw),
            draw,
        ),
    decreases draws.len(),
{
    let more = draws.push(draw);
    if draws.len() == 0 {
        assert(more.drop_first() =~= Seq::<Draw>::empty());
        assert(written(draw, 0, more.drop_first()) =~= Seq::<u32>::empty());
        assert(written(prev, pending, more) =~= record(pending | changed(prev, draw), draw));
        assert(written(prev, pending, draws) =~= Seq::<u32>::empty());
    } else {
        let tail = draws.drop_first();
        lemma_written_push(draws[0], 0, tail, draw);
        assert(more.drop_first() =~= tail.push(draw));
        assert(more[0] == draws[0]);
        assert(state_after(draws[0], tail) == state_after(prev, draws)) by {
            if tail.len() > 0 {
                assert(tail.last() == draws.last());
            }
        }
        assert(pending_after(0, tail) == 0);
        assert(written(prev, pending, more) =~= written(prev, pending, draws) + record(
            0u32 | changed(state_after(prev, draws), draw),
            draw,
        ));
    }
}

/// A reader reads the draws that a writer wrote: from the words that a
/// writer with the pending flags `pending`, all flags or none, wrote for
/// the draws `draws` after the draw `prev`, a reader in the state `prev`
/// reads `draws`, whatever stands before those words.
pub proof fn lemma_round_trip(prev: Draw, pending: u32, draws: Seq<Draw>, before: Seq<u32>)
    requires
        pending == 0 || pending == DRAW_ALL,
    ensures
        read_all(prev, before + written(prev, pending, draws), before.len() as int) == Some(draws),
    decreases draws.len(),
{
    let words = before + written(prev, pending, draws);
    if draws.len() == 0 {
        assert(words =~= before);
        assert(draws =~= Seq::<Draw>::empty());
    } else {
        let first = draws[0];
        let tail = draws.drop_first();
        let rec = record(pending | changed(prev, first), first);
        let rest = written(first, 0, tail);
        assert(words =~= before + rec + rest);
        lemma_draw_read_back(prev, pending, first, before, rest);
        lemma_round_trip(first, 0, tail, before + rec);
        assert((before + rec) + rest =~= words);
        assert(seq![first] + tail =~= draws);
    }
}

/// Reads draw commands from a buffer of words.
pub struct CommandReader<'a> {
    state: Draw,
    data: &'a Vec<u32>,
    pos: usize,
}

impl<'a> CommandReader<'a> {
    /// The parameters of the draw that was read last.
    pub closed spec fn state(&self) -> Draw {
        self.state
    }

    /// The words that are read.
    pub closed spec fn words(&self) -> Seq<u32> {
        self.data@
    }

    /// The place of the word that is read next.
    pub closed spec fn pos(&self) -> int {
        self.pos as int
    }

    /// The reader stands within the words or at their end.
    pub open spec fn wf(&self) -> bool {
        0 <= self.pos() <= self.words().len()
    }

    /// A reader at the start of `data`.
    pub fn new(data: &'a Vec<u32>) -> (reader: CommandReader<'a>)
        ensures
            reader.wf(),
            reader.state() == initial_draw(),
            reader.words() == data@,
            reader.pos() == 0,
    {
        CommandReader {
            state: Draw { instance_base: 0, instance_count: 1, vertex_base: 0, vertex_count: 0 },
            data,
            pos: 0,
        }
    }

    /// The next word, which has to be there.
    fn expect_u32(&mut self) -> (word: Result<u32, Error>)
        requires
            old(self).wf(),
        ensures
            final(self).wf(),
            final(self).state() == old(self).state(),
            final(self).words() == old(self).words(),
            word is Ok <==> old(self).pos() < old(self).words().len(),
            word matches Ok(w) ==> w == old(self).words()[old(self).pos()] && final(self).pos() == old(
                self,
            ).pos() + 1,
            word matches Err(e) ==> e == Error::Bug && final(self).pos() == old(self).pos(),
    {
        if self.pos < self.data.len() {
            let word = self.data[self.pos];
            self.pos = self.pos + 1;
            Ok(word)
        } else {
            Err(Error::Bug)
        }
    }

    /// The value of a parameter: the next word where the flag is set, else
    /// the value it has.
    fn take(&mut self, flags: u32, flag: u32, current: u32) -> (value: Result<u32, Error>)
        requires
            old(self).wf(),
        ensures
            final(self).wf(),
            final(self).state() == old(self).state(),
            final(self).words() == old(self).words(),
            match take(flags, flag, old(self).words(), old(self).pos(), current) {
                None => value == Err::<u32, Error>(Error::Bug),
                Some((v, p)) => value == Ok::<u32, Error>(v) && final(self).pos() == p,
            },
    {
        if flags & flag == flag {
            self.expect_u32()
        } else {
            Ok(current)
        }
    }

    fn next_impl(&mut self) -> (draw: Result<Option<Draw>, Error>)
        requires
            old(self).wf(),
        ensures
            final(self).wf(),
            final(self).words() == old(self).words(),
            old(self).pos() == old(self).words().len() ==> draw == Ok::<Option<Draw>, Error>(None)
                && final(self).pos() == old(self).pos() && final(self).state() == old(self).state(),
            old(self).pos() < old(self).words().len() ==> match decode(
                old(self).state(),
                old(self).words(),
                old(self).pos(),
            ) {
                None => draw == Err::<Option<Draw>, Error>(Error::Bug),
                Some((d, p)) => draw == Ok::<Option<Draw>, Error>(Some(d)) && final(self).pos() == p
                    && final(self).state() == d,
            },
    {
        if self.pos >= self.data.len() {
            return Ok(None);
        }
        let flags = self.data[self.pos] & DRAW_ALL;
        self.pos = self.pos + 1;
        let current = self.state;
        let instance_count = match self.take(flags, DRAW_INSTANCE_COUNT, current.instance_count) {
            Err(e) => {
                return Err(e);
            },
            Ok(v) => v,
        };
        let instance_base = match self.take(flags, DRAW_INSTANCE_BASE, current.instance_base) {
            Err(e) => {
                return Err(e);
            },
            Ok(v) => v,
        };
        let vertex_count = match self.take(flags, DRAW_VERTEX_COUNT, current.vertex_count) {
            Err(e) => {
                return Err(e);
            },
            Ok(v) => v,
        };
        let vertex_base = match self.take(flags, DRAW_VERTEX_BASE, current.vertex_base) {
            Err(e) => {
                return Err(e);
            },
            Ok(v) => v,
        };
        self.state = Draw { instance_base, instance_count, vertex_base, vertex_count };
        Ok(Some(self.state))
    }

    /// The next draw; nothing at the end of the words; an error where the
    /// words end in the middle of a draw.
    pub fn next(&mut self) -> (draw: Option<Result<Draw, Error>>)
        requires
            old(self).wf(),
        ensures
            final(self).wf(),
            final(self).words() == old(self).words(),
            draw is None <==> old(self).pos() == old(self).words().len(),
            draw is None ==> final(self).pos() == old(self).pos() && final(self).state() == old(
                self,
            ).state(),
            old(self).pos() < old(self).words().len() ==> match decode(
                old(self).state(),
                old(self).words(),
                old(self).pos(),
            ) {
                None => draw == Some(Err::<Draw, Error>(Error::Bug)),
                Some((d, p)) => draw == Some(Ok::<Draw, Error>(d)) && final(self).pos() == p
                    && final(self).state() == d,
            },
    {
        match self.next_impl() {
            Ok(Some(draw)) => Some(Ok(draw)),
            Ok(None) => None,
            Err(e) => Some(Err(e)),
        }
    }
}

} // verus!
