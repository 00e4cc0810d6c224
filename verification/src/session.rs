//! Robot-side stream handling: a growable accumulator that frames the byte
//! stream into newline-delimited lines, and the per-connection session that
//! dispatches each framed line and acknowledges it.

use vstd::prelude::*;
use crate::protocol::{
    ack_line, encode_ack, handle_command, spec_handle_command, CommandAction,
};
use crate::text::byte_views;
use crate::wire::{find_byte, lemma_find_byte_at, lemma_find_byte_none, NL};

verus! {

/// The complete lines held in `s`: for each delimiter, the bytes before it,
/// in order, without the delimiter.
pub open spec fn complete_lines(s: Seq<u8>) -> Seq<Seq<u8>>
    decreases s.len(),
    via complete_lines_decreases
{
    match find_byte(s, NL) {
        Some(i) => seq![s.take(i)] + complete_lines(s.skip(i + 1)),
        None => Seq::<Seq<u8>>::empty(),
    }
}

#[via_fn]
proof fn complete_lines_decreases(s: Seq<u8>) {
    crate::wire::lemma_find_byte(s, NL);
}

/// What remains of `s` after its last delimiter: the bytes of the line
/// still under way.
pub open spec fn line_rest(s: Seq<u8>) -> Seq<u8>
    decreases s.len(),
    via line_rest_decreases
{
    match find_byte(s, NL) {
        Some(i) => line_rest(s.skip(i + 1)),
        None => s,
    }
}

#[via_fn]
proof fn line_rest_decreases(s: Seq<u8>) {
    crate::wire::lemma_find_byte(s, NL);
}

/// Chunk boundaries do not matter to framing: the lines of `s + t` are the
/// lines of `s`, then the lines of `s`'s leftover with `t` appended — and
/// the leftover composes the same way. So feeding one stream in any split,
/// mid-message or not, frames the same lines in the same order.
pub proof fn lemma_framing_composes(s: Seq<u8>, t: Seq<u8>)
    ensures
        complete_lines(s + t) =~= complete_lines(s) + complete_lines(line_rest(s) + t),
        line_rest(s + t) == line_rest(line_rest(s) + t),
    decreases s.len(),
{
    crate::wire::lemma_find_byte(s, NL);
    match find_byte(s, NL) {
        None => {
            assert(line_rest(s) == s);
            assert(complete_lines(s) =~= Seq::<Seq<u8>>::empty());
            assert(complete_lines(s) + complete_lines(s + t) =~= complete_lines(s + t));
        },
        Some(i) => {
            let w = s + t;
            assert(w[i] == s[i]);
            assert(forall|j: int| 0 <= j < i ==> w[j] == s[j]);
            lemma_find_byte_at(w, NL, i);
            assert(w.take(i) =~= s.take(i));
            assert(w.skip(i + 1) =~= s.skip(i + 1) + t);
            lemma_framing_composes(s.skip(i + 1), t);
            assert(seq![s.take(i)] + (complete_lines(s.skip(i + 1)) + complete_lines(
                line_rest(s.skip(i + 1)) + t,
            )) =~= (seq![s.take(i)] + complete_lines(s.skip(i + 1))) + complete_lines(
                line_rest(s.skip(i + 1)) + t,
            ));
        },
    }
}

/// Index of the first delimiter of `v`, if any.
fn find_nl(v: &Vec<u8>) -> (r: Option<usize>)
    ensures
        match r {
            Some(j) => find_byte(v@, NL) == Some(j as int),
            None => find_byte(v@, NL) is None,
        },
{
    let n = v.len();
    let mut i: usize = 0;
    while i < n
        invariant
            i <= n,
            n == v@.len(),
            forall|j: int| 0 <= j < i ==> v@[j] != NL,
        decreases n - i,
    {
        if v[i] == NL {
            proof {
                lemma_find_byte_at(v@, NL, i as int);
            }
            return Some(i);
        }
        i += 1;
    }
    proof {
        lemma_find_byte_none(v@, NL);
    }
    None
}

/// A copy of `v[from..to]`.
fn copy_range(v: &Vec<u8>, from: usize, to: usize) -> (r: Vec<u8>)
    requires
        from <= to <= v@.len(),
    ensures
        r@ == v@.subrange(from as int, to as int),
{
    let mut r: Vec<u8> = Vec::new();
    let mut i = from;
    while i < to
        invariant
            from <= i <= to <= v@.len(),
            r@ =~= v@.subrange(from as int, i as int),
        decreases to - i,
    {
        r.push(v[i]);
        proof {
            assert(r@ =~= v@.subrange(from as int, i as int + 1));
        }
        i += 1;
    }
    proof {
        assert(r@ =~= v@.subrange(from as int, to as int));
    }
    r
}

/// The framing accumulator of one connection: bytes received but not yet
/// framed into a line.
pub struct Decoder {
    buf: Vec<u8>,
}

impl Decoder {
    /// Bytes waiting for their delimiter.
    pub closed spec fn pending(&self) -> Seq<u8> {
        self.buf@
    }

    /// No complete line lingers: every delimiter was consumed when it
    /// arrived.
    pub closed spec fn wf(&self) -> bool {
        forall|i: int| 0 <= i < self.buf@.len() ==> self.buf@[i] != NL
    }

    /// An empty accumulator.
    pub fn new() -> (r: Decoder)
        ensures
            r.pending() == Seq::<u8>::empty(),
            r.wf(),
    {
        Decoder { buf: Vec::new() }
    }

    /// Appends a received chunk and takes out every line completed by it,
    /// in order and without delimiters; the bytes after the last delimiter
    /// stay pending.
    pub fn feed(&mut self, chunk: &Vec<u8>) -> (lines: Vec<Vec<u8>>)
        requires
            old(self).wf(),
        ensures
            final(self).wf(),
            byte_views(lines@) == complete_lines(old(self).pending() + chunk@),
            final(self).pending() == line_rest(old(self).pending() + chunk@),
    {
        let ghost total = self.buf@ + chunk@;
        let mut i: usize = 0;
        let n = chunk.len();
        while i < n
            invariant
                i <= n,
                n == chunk@.len(),
                self.buf@ =~= old(self).buf@ + chunk@.subrange(0, i as int),
            decreases n - i,
        {
            self.buf.push(chunk[i]);
            proof {
                assert(self.buf@ =~= old(self).buf@ + chunk@.subrange(0, i as int + 1));
            }
            i += 1;
        }
        proof {
            assert(self.buf@ =~= total);
        }

        let mut lines: Vec<Vec<u8>> = Vec::new();
        proof {
            assert(byte_views(lines@) + complete_lines(total) =~= complete_lines(total));
        }
        loop
            invariant
                complete_lines(total) =~= byte_views(lines@) + complete_lines(self.buf@),
                line_rest(total) == line_rest(self.buf@),
            ensures
                find_byte(self.buf@, NL) is None,
                complete_lines(total) =~= byte_views(lines@) + complete_lines(self.buf@),
                line_rest(total) == line_rest(self.buf@),
            decreases self.buf@.len(),
        {
            let found = find_nl(&self.buf);
            match found {
                None => {
                    break ;
                },
                Some(j) => {
                    let ghost pre = self.buf@;
                    proof {
                        crate::wire::lemma_find_byte(pre, NL);
                        assert(j < self.buf@.len());
                    }
                    let line = copy_range(&self.buf, 0, j);
                    let len = self.buf.len();
                    let rest = copy_range(&self.buf, j + 1, len);
                    proof {
                        assert(complete_lines(pre) == seq![pre.take(j as int)] + complete_lines(
                            pre.skip(j as int + 1),
                        ));
                        assert(line_rest(pre) == line_rest(pre.skip(j as int + 1)));
                        assert(line@ =~= pre.take(j as int));
                        assert(rest@ =~= pre.skip(j as int + 1));
                        assert(byte_views(lines@.push(line)) =~= byte_views(lines@) + seq![
                            line@,
                        ]);
                        assert(byte_views(lines@.push(line)) + complete_lines(rest@)
                            =~= byte_views(lines@) + complete_lines(pre));
                    }
                    lines.push(line);
                    self.buf = rest;
                },
            }
        }
        proof {
            crate::wire::lemma_find_byte(self.buf@, NL);
            assert(complete_lines(self.buf@) =~= Seq::<Seq<u8>>::empty());
            assert(byte_views(lines@) =~= complete_lines(total));
            assert(line_rest(self.buf@) == self.buf@);
        }
        lines
    }
}

/// One framed line, what dispatching it did, and the acknowledgment owed
/// for it.
pub struct LineOutcome {
    /// The framed line, delimiter removed.
    pub line: Vec<u8>,
    /// What the command dispatcher made of it.
    pub action: CommandAction,
    /// The `ACK\n` reply to send back.
    pub reply: Vec<u8>,
}

/// One robot-side connection: frames its byte stream, dispatches each line,
/// and owes one acknowledgment per framed line.
pub struct Session {
    decoder: Decoder,
}

impl Session {
    /// Bytes received but not yet framed into a line.
    pub closed spec fn pending(&self) -> Seq<u8> {
        self.decoder.pending()
    }

    /// The accumulator holds no unconsumed delimiter.
    pub closed spec fn wf(&self) -> bool {
        self.decoder.wf()
    }

    /// A session with nothing pending.
    pub fn new() -> (r: Session)
        ensures
            r.pending() == Seq::<u8>::empty(),
            r.wf(),
    {
        Session { decoder: Decoder::new() }
    }

    /// Consumes one received chunk: every line the chunk completes is
    /// framed, dispatched and acknowledged, in arrival order — exactly one
    /// `ACK\n` per framed line, whatever the line held.
    pub fn ingest(&mut self, chunk: &Vec<u8>) -> (steps: Vec<LineOutcome>)
        requires
            old(self).wf(),
        ensures
            final(self).wf(),
            steps@.len() == complete_lines(old(self).pending() + chunk@).len(),
            forall|k: int|
                #![auto]
                0 <= k < steps@.len() ==> steps@[k].line@ == complete_lines(
                    old(self).pending() + chunk@,
                )[k] && steps@[k].action == spec_handle_command(
                    complete_lines(old(self).pending() + chunk@)[k],
                ) && steps@[k].reply@ == ack_line(),
            final(self).pending() == line_rest(old(self).pending() + chunk@),
    {
        let mut lines = self.decoder.feed(chunk);
        let ghost all = byte_views(lines@);
        let mut steps: Vec<LineOutcome> = Vec::new();
        proof {
            assert(all.skip(0) =~= all);
        }
        while lines.len() > 0
            invariant
                steps@.len() + lines@.len() == all.len(),
                byte_views(lines@) =~= all.skip(steps@.len() as int),
                forall|k: int|
                    #![auto]
                    0 <= k < steps@.len() ==> steps@[k].line@ == all[k] && steps@[k].action
                        == spec_handle_command(all[k]) && steps@[k].reply@ == ack_line(),
            decreases lines@.len(),
        {
            let ghost count = steps@.len() as int;
            let ghost prev = lines@;
            let line = lines.remove(0);
            proof {
                assert(byte_views(prev)[0] == prev[0]@);
                assert(line@ == all.skip(count)[0]);
                assert(line@ == all[count]);
                assert(forall|k: int|
                    0 <= k < lines@.len() ==> byte_views(lines@)[k] == byte_views(prev)[k + 1]);
                assert(byte_views(lines@) =~= all.skip(count + 1));
            }
            let action = handle_command(&line);
            let reply = encode_ack();
            steps.push(LineOutcome { line, action, reply });
        }
        steps
    }
}

} // verus!
