//! Splitting a byte stream into lines.
//!
//! A line ends at a line feed; a carriage return immediately before the
//! line feed belongs to the terminator and is dropped. Bytes after the
//! last line feed form a final, unterminated line when there are any.

use vstd::prelude::*;

verus! {

/// The line feed byte, the terminator every printed line ends with.
pub const LF: u8 = 10;

/// The carriage return byte, dropped when it stands right before a line feed.
pub const CR: u8 = 13;

/// A terminated line with a single trailing carriage return removed.
pub open spec fn strip_cr(line: Seq<u8>) -> Seq<u8> {
    if line.len() > 0 && line.last() == CR {
        line.drop_last()
    } else {
        line
    }
}

/// Puts byte `c` in front of the first line, or starts a line with it.
pub open spec fn extend_first(c: u8, rest: Seq<Seq<u8>>) -> Seq<Seq<u8>> {
    if rest.len() == 0 {
        seq![seq![c]]
    } else {
        seq![seq![c] + rest[0]] + rest.skip(1)
    }
}

/// The lines of a byte stream: split at each line feed, with a carriage
/// return immediately before a line feed dropped, and the bytes after the
/// last line feed kept as one more line when there are any.
pub open spec fn split_lines(s: Seq<u8>) -> Seq<Seq<u8>>
    decreases s.len(),
{
    if s.len() == 0 {
        seq![]
    } else if s[0] == LF {
        seq![seq![]] + split_lines(s.skip(1))
    } else if s[0] == CR && s.len() >= 2 && s[1] == LF {
        seq![seq![]] + split_lines(s.skip(2))
    } else {
        extend_first(s[0], split_lines(s.skip(1)))
    }
}

/// The bytes after the last line feed: what a streaming reader still
/// holds back as an unfinished line.
pub open spec fn tail_bytes(s: Seq<u8>) -> Seq<u8>
    decreases s.len(),
{
    if !s.contains(LF) {
        s
    } else {
        tail_bytes(s.skip(1))
    }
}

/// A nonempty stream has at least one line.
pub proof fn lemma_split_lines_len(s: Seq<u8>)
    ensures
        s.len() == 0 <==> split_lines(s).len() == 0,
{
    if s.len() > 0 {
        assert(split_lines(s).len() > 0);
    }
}

/// A stream without a line feed is one line (or none, when empty), as it is.
pub proof fn lemma_split_lines_no_lf(s: Seq<u8>)
    requires
        !s.contains(LF),
    ensures
        split_lines(s) == if s.len() == 0 {
            Seq::<Seq<u8>>::empty()
        } else {
            seq![s]
        },
    decreases s.len(),
{
    if s.len() > 0 {
        assert(s[0] != LF);
        assert(s.len() >= 2 ==> s[1] != LF);
        assert(!s.skip(1).contains(LF)) by {
            if s.skip(1).contains(LF) {
                let i = choose|i: int| 0 <= i < s.skip(1).len() && s.skip(1)[i] == LF;
                assert(s[i + 1] == LF);
            }
        }
        lemma_split_lines_no_lf(s.skip(1));
        if s.len() == 1 {
            assert(split_lines(s) =~= seq![s]) by {
                assert(seq![s[0]] =~= s);
            }
        } else {
            assert(split_lines(s) == extend_first(s[0], seq![s.skip(1)]));
            assert(seq![s[0]] + s.skip(1) =~= s);
            assert(split_lines(s) =~= seq![s]);
        }
    }
}

/// Prepending bytes to a nonempty line commutes with dropping its
/// trailing carriage return.
proof fn lemma_strip_cr_cons(c: u8, q: Seq<u8>)
    requires
        q.len() > 0,
    ensures
        strip_cr(seq![c] + q) == seq![c] + strip_cr(q),
{
    let w = seq![c] + q;
    assert(w.last() == q.last());
    if q.last() == CR {
        assert(w.drop_last() =~= seq![c] + q.drop_last());
    }
}

/// Splitting a stream that starts with one terminated line: that line,
/// stripped of a trailing carriage return, then the lines of the rest.
pub proof fn lemma_split_lines_terminated(p: Seq<u8>, t: Seq<u8>)
    requires
        !p.contains(LF),
    ensures
        split_lines(p + seq![LF] + t) == seq![strip_cr(p)] + split_lines(t),
    decreases p.len(),
{
    let w = p + seq![LF] + t;
    if p.len() == 0 {
        assert(w =~= seq![LF] + t);
        assert(w[0] == LF);
        assert(w.skip(1) =~= t);
        assert(seq![strip_cr(p)] =~~= seq![seq![]]);
    } else {
        let c = p[0];
        assert(c != LF);
        assert(w[0] == c);
        assert(!p.skip(1).contains(LF)) by {
            if p.skip(1).contains(LF) {
                let i = choose|i: int| 0 <= i < p.skip(1).len() && p.skip(1)[i] == LF;
                assert(p[i + 1] == LF);
            }
        }
        if c == CR && p.len() == 1 {
            assert(w.len() >= 2 && w[1] == LF);
            assert(w.skip(2) =~= t);
            assert(strip_cr(p) =~= seq![]) by {
                assert(p.last() == CR);
                assert(p.drop_last() =~= seq![]);
            }
        } else {
            // The first byte does not form a terminator: either it is not a
            // carriage return, or the next byte (from p) is not a line feed.
            assert(w.len() >= 2);
            assert(p.len() >= 2 ==> w[1] == p[1]);
            assert(p.len() == 1 ==> c != CR);
            assert(!(w[0] == CR && w[1] == LF));
            assert(w.skip(1) =~= p.skip(1) + seq![LF] + t);
            lemma_split_lines_terminated(p.skip(1), t);
            let rest = split_lines(p.skip(1) + seq![LF] + t);
            assert(rest == seq![strip_cr(p.skip(1))] + split_lines(t));
            assert(rest.len() > 0);
            assert(rest[0] == strip_cr(p.skip(1)));
            assert(split_lines(w) == seq![seq![c] + strip_cr(p.skip(1))] + rest.skip(1));
            if p.len() == 1 {
                assert(p.skip(1) =~= Seq::<u8>::empty());
                assert(seq![c] + strip_cr(p.skip(1)) =~= p);
                assert(strip_cr(p) == p);
                assert(rest.skip(1) =~= split_lines(t));
                assert(split_lines(w) =~= seq![strip_cr(p)] + split_lines(t));
            } else {
                lemma_strip_cr_cons(c, p.skip(1));
                assert(seq![c] + p.skip(1) =~= p);
                assert(seq![c] + strip_cr(p.skip(1)) == strip_cr(p));
                assert(rest.skip(1) =~= split_lines(t));
                assert(split_lines(w) =~= seq![strip_cr(p)] + split_lines(t));
            }
        }
    }
}

/// After a complete line, the held-back bytes come from the rest alone.
pub proof fn lemma_tail_bytes_terminated(p: Seq<u8>, t: Seq<u8>)
    requires
        !p.contains(LF),
    ensures
        tail_bytes(p + seq![LF] + t) == tail_bytes(t),
    decreases p.len(),
{
    let w = p + seq![LF] + t;
    assert(w[p.len() as int] == LF);
    assert(w.contains(LF));
    if p.len() == 0 {
        assert(w.skip(1) =~= t);
    } else {
        assert(!p.skip(1).contains(LF)) by {
            if p.skip(1).contains(LF) {
                let i = choose|i: int| 0 <= i < p.skip(1).len() && p.skip(1)[i] == LF;
                assert(p[i + 1] == LF);
            }
        }
        assert(w.skip(1) =~= p.skip(1) + seq![LF] + t);
        lemma_tail_bytes_terminated(p.skip(1), t);
    }
}

/// The held-back bytes never contain a line feed.
pub proof fn lemma_tail_bytes_no_lf(s: Seq<u8>)
    ensures
        !tail_bytes(s).contains(LF),
    decreases s.len(),
{
    if s.contains(LF) {
        lemma_tail_bytes_no_lf(s.skip(1));
    }
}

/// Splits a byte stream into lines incrementally, holding back the bytes
/// of the line that is not yet terminated.
pub struct LineSplitter {
    pending: Vec<u8>,
}

impl View for LineSplitter {
    type V = Seq<u8>;

    /// The bytes of the unfinished line held back so far.
    closed spec fn view(&self) -> Seq<u8> {
        self.pending@
    }
}

impl LineSplitter {
    /// The held-back bytes never contain a line feed.
    pub open spec fn wf(&self) -> bool {
        !self@.contains(LF)
    }

    /// A splitter that has seen no bytes yet.
    pub fn new() -> (r: LineSplitter)
        ensures
            r@ == Seq::<u8>::empty(),
            r.wf(),
    {
        LineSplitter { pending: Vec::new() }
    }

    /// Takes the next chunk of the stream and returns every line it
    /// completes; an unfinished line stays held back for later chunks.
    pub fn feed(&mut self, chunk: &Vec<u8>) -> (lines: Vec<Vec<u8>>)
        requires
            old(self).wf(),
        ensures
            final(self).wf(),
            split_lines(old(self)@ + chunk@) == lines.deep_view() + split_lines(final(self)@),
            final(self)@ == tail_bytes(old(self)@ + chunk@),
    {
        let ghost start: Seq<u8> = self@;
        let ghost whole: Seq<u8> = start + chunk@;
        let mut out: Vec<Vec<u8>> = Vec::new();
        let mut i: usize = 0;
        proof {
            assert(self@ + chunk@.skip(0) =~= whole);
        }
        while i < chunk.len()
            invariant
                i <= chunk.len(),
                whole == start + chunk@,
                !self.pending@.contains(LF),
                out.deep_view() + split_lines(self.pending@ + chunk@.skip(i as int)) == split_lines(
                    whole,
                ),
                tail_bytes(self.pending@ + chunk@.skip(i as int)) == tail_bytes(whole),
            decreases chunk.len() - i,
        {
            let ghost p = self.pending@;
            let ghost rest = chunk@.skip(i as int);
            let b = chunk[i];
            if b == LF {
                if self.pending.len() > 0 && self.pending[self.pending.len() - 1] == CR {
                    self.pending.pop();
                }
                proof {
                    assert(self.pending@ =~= strip_cr(p));
                }
                let mut finished: Vec<u8> = Vec::new();
                core::mem::swap(&mut finished, &mut self.pending);
                let ghost old_out = out.deep_view();
                out.push(finished);
                proof {
                    assert(out.deep_view() =~~= old_out + seq![strip_cr(p)]);
                    assert(p + rest =~= p + seq![LF] + chunk@.skip(i + 1));
                    lemma_split_lines_terminated(p, chunk@.skip(i + 1));
                    lemma_tail_bytes_terminated(p, chunk@.skip(i + 1));
                    assert(self.pending@ + chunk@.skip(i + 1) =~= chunk@.skip(i + 1));
                    assert(out.deep_view() + split_lines(self.pending@ + chunk@.skip(i + 1))
                        =~~= old_out + (seq![strip_cr(p)] + split_lines(chunk@.skip(i + 1))));
                }
            } else {
                self.pending.push(b);
                proof {
                    assert(self.pending@ + chunk@.skip(i + 1) =~= p + rest);
                }
            }
            i = i + 1;
        }
        proof {
            assert(self.pending@ + chunk@.skip(chunk@.len() as int) =~= self.pending@);
        }
        out
    }

    /// Ends the stream: hands out the final unterminated line, if any.
    /// No terminator was seen for it, so no carriage return is dropped.
    pub fn finish(self) -> (r: Option<Vec<u8>>)
        ensures
            r is None <==> self@.len() == 0,
            r matches Some(line) ==> line@ == self@,
    {
        if self.pending.len() == 0 {
            None
        } else {
            Some(self.pending)
        }
    }
}

/// The lines of a whole stream, in order.
pub fn split_into_lines(content: &Vec<u8>) -> (lines: Vec<Vec<u8>>)
    ensures
        lines.deep_view() == split_lines(content@),
{
    let mut splitter = LineSplitter::new();
    let mut lines = splitter.feed(content);
    proof {
        assert(Seq::<u8>::empty() + content@ =~= content@);
    }
    let ghost held = splitter@;
    proof {
        lemma_tail_bytes_no_lf(content@);
    }
    match splitter.finish() {
        None => {
            proof {
                lemma_split_lines_no_lf(held);
                assert(lines.deep_view() + split_lines(held) =~~= lines.deep_view());
            }
        },
        Some(last) => {
            let ghost done = lines.deep_view();
            lines.push(last);
            proof {
                lemma_split_lines_no_lf(held);
                assert(lines.deep_view() =~~= done + seq![held]);
            }
        },
    }
    lines
}

/// What standard output receives for the given lines: each line's bytes
/// followed by a single line feed.
pub open spec fn render(lines: Seq<Seq<u8>>) -> Seq<u8>
    decreases lines.len(),
{
    if lines.len() == 0 {
        seq![]
    } else {
        lines[0] + seq![LF] + render(lines.skip(1))
    }
}

/// The stream with every line terminator normalized to a single line
/// feed, and one line feed added when a nonempty stream does not end in
/// a terminator.
pub open spec fn normalized(s: Seq<u8>) -> Seq<u8>
    decreases s.len(),
{
    if s.len() == 0 {
        seq![]
    } else if s[0] == LF {
        seq![LF] + normalized(s.skip(1))
    } else if s[0] == CR && s.len() >= 2 && s[1] == LF {
        seq![LF] + normalized(s.skip(2))
    } else if s.len() == 1 {
        seq![s[0], LF]
    } else {
        seq![s[0]] + normalized(s.skip(1))
    }
}

/// Printing each line of a stream, each followed by one line feed,
/// reproduces the stream with its line terminators normalized.
pub proof fn lemma_render_split_lines(s: Seq<u8>)
    ensures
        render(split_lines(s)) == normalized(s),
    decreases s.len(),
{
    if s.len() == 0 {
    } else if s[0] == LF {
        lemma_render_split_lines(s.skip(1));
        let rest = split_lines(s.skip(1));
        assert((seq![seq![]] + rest).skip(1) =~~= rest);
        assert(render(split_lines(s)) =~= seq![LF] + render(rest));
    } else if s[0] == CR && s.len() >= 2 && s[1] == LF {
        lemma_render_split_lines(s.skip(2));
        let rest = split_lines(s.skip(2));
        assert((seq![seq![]] + rest).skip(1) =~~= rest);
        assert(render(split_lines(s)) =~= seq![LF] + render(rest));
    } else if s.len() == 1 {
        assert(split_lines(s.skip(1)) =~~= Seq::<Seq<u8>>::empty());
        assert(split_lines(s) =~~= seq![seq![s[0]]]);
        assert(split_lines(s).skip(1) =~~= Seq::<Seq<u8>>::empty());
        assert(split_lines(s)[0] == seq![s[0]]);
        assert(render(split_lines(s).skip(1)) == Seq::<u8>::empty());
        assert(render(split_lines(s)) == split_lines(s)[0] + seq![LF] + render(
            split_lines(s).skip(1),
        ));
        assert(render(split_lines(s)) =~= seq![s[0], LF]);
    } else {
        lemma_render_split_lines(s.skip(1));
        let rest = split_lines(s.skip(1));
        lemma_split_lines_len(s.skip(1));
        assert(rest.len() > 0);
        let ext = extend_first(s[0], rest);
        assert(ext[0] == seq![s[0]] + rest[0]);
        assert(ext.skip(1) =~~= rest.skip(1));
        assert(render(ext) =~= (seq![s[0]] + rest[0]) + seq![LF] + render(rest.skip(1)));
        assert(render(ext) =~= seq![s[0]] + render(rest));
        assert(normalized(s) == seq![s[0]] + normalized(s.skip(1)));
    }
}

/// Writes out the given lines as standard output receives them: each
/// line's bytes, then one line feed.
pub fn render_lines(lines: &Vec<Vec<u8>>) -> (out: Vec<u8>)
    ensures
        out@ == render(lines.deep_view()),
{
    let ghost all = lines.deep_view();
    let mut out: Vec<u8> = Vec::new();
    let mut i: usize = 0;
    proof {
        assert(all.skip(0) =~~= all);
        assert(Seq::<u8>::empty() + render(all) =~= render(all));
    }
    while i < lines.len()
        invariant
            i <= lines.len(),
            all == lines.deep_view(),
            out@ + render(all.skip(i as int)) == render(all),
        decreases lines.len() - i,
    {
        let ghost before = out@;
        let line = &lines[i];
        let mut j: usize = 0;
        while j < line.len()
            invariant
                j <= line.len(),
                i < lines.len(),
                line == &lines[i as int],
                all == lines.deep_view(),
                out@ == before + line@.take(j as int),
            decreases line.len() - j,
        {
            out.push(line[j]);
            proof {
                assert(before + line@.take(j as int) + seq![line@[j as int]] =~= before
                    + line@.take(j + 1));
            }
            j = j + 1;
        }
        out.push(LF);
        proof {
            assert(line@.take(line@.len() as int) =~= line@);
            assert(all.skip(i as int).skip(1) =~~= all.skip(i + 1));
            assert(all[i as int] == line@);
            assert(render(all.skip(i as int)) == all[i as int] + seq![LF] + render(
                all.skip(i + 1),
            ));
            assert(out@ + render(all.skip(i + 1)) =~= before + render(all.skip(i as int)));
        }
        i = i + 1;
    }
    proof {
        assert(all.skip(all.len() as int) =~~= Seq::<Seq<u8>>::empty());
    }
    out
}

} // verus!
