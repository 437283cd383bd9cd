//! Splitting a stream of byte fragments into newline-terminated lines.
use vstd::prelude::*;

verus! {

/// The line terminator.
pub const NEWLINE: u8 = 10;

/// One byte of input: a newline closes the carried line, any other byte is
/// appended to it. The result is the closed lines (none or one) and the new
/// carry-over.
pub open spec fn split_byte(carry: Seq<u8>, b: u8) -> (Seq<Seq<u8>>, Seq<u8>) {
    if b == NEWLINE {
        (seq![carry], Seq::<u8>::empty())
    } else {
        (Seq::<Seq<u8>>::empty(), carry.push(b))
    }
}

/// The lines completed while reading `bytes` after `carry`, and what is
/// left unterminated at the end.
pub open spec fn split_bytes(carry: Seq<u8>, bytes: Seq<u8>) -> (Seq<Seq<u8>>, Seq<u8>)
    decreases bytes.len(),
{
    if bytes.len() == 0 {
        (Seq::<Seq<u8>>::empty(), carry)
    } else {
        let (lines, rest) = split_bytes(carry, bytes.drop_last());
        let (more, rest2) = split_byte(rest, bytes.last());
        (lines + more, rest2)
    }
}

/// Reading `a` then `b` gives the lines of reading them as one.
pub proof fn lemma_split_bytes_concat(carry: Seq<u8>, a: Seq<u8>, b: Seq<u8>)
    ensures
        ({
            let (l1, c1) = split_bytes(carry, a);
            let (l2, c2) = split_bytes(c1, b);
            split_bytes(carry, a + b) == (l1 + l2, c2)
        }),
    decreases b.len(),
{
    if b.len() == 0 {
        assert(a + b =~= a);
        let (l1, c1) = split_bytes(carry, a);
        assert(l1 + Seq::<Seq<u8>>::empty() =~= l1);
    } else {
        let b0 = b.drop_last();
        lemma_split_bytes_concat(carry, a, b0);
        assert((a + b).drop_last() =~= a + b0);
        assert((a + b).last() == b.last());
        let (l1, c1) = split_bytes(carry, a);
        let (l2, c2) = split_bytes(c1, b0);
        let (more, c3) = split_byte(c2, b.last());
        assert(l1 + l2 + more =~= l1 + (l2 + more));
    }
}

/// No line, and no carry-over, holds a newline.
pub proof fn lemma_split_bytes_no_newline(carry: Seq<u8>, bytes: Seq<u8>)
    requires
        !carry.contains(NEWLINE),
    ensures
        forall|i: int|
            0 <= i < split_bytes(carry, bytes).0.len() ==> !(#[trigger] split_bytes(
                carry,
                bytes,
            ).0[i]).contains(NEWLINE),
        !split_bytes(carry, bytes).1.contains(NEWLINE),
    decreases bytes.len(),
{
    if bytes.len() > 0 {
        lemma_split_bytes_no_newline(carry, bytes.drop_last());
        let (lines, rest) = split_bytes(carry, bytes.drop_last());
        let b = bytes.last();
        if b != NEWLINE {
            assert forall|j: int| 0 <= j < rest.push(b).len() implies rest.push(b)[j]
                != NEWLINE by {
                if j < rest.len() {
                    assert(rest[j] != NEWLINE) by {
                        if rest[j] == NEWLINE {
                            assert(rest.contains(NEWLINE));
                        }
                    }
                }
            }
        }
        let (more, r2) = split_byte(rest, b);
        assert forall|i: int| 0 <= i < (lines + more).len() implies !(#[trigger] (lines
            + more)[i]).contains(NEWLINE) by {
            if i < lines.len() {
                assert((lines + more)[i] == lines[i]);
            } else {
                assert((lines + more)[i] == rest);
            }
        }
    }
}

/// Turns byte fragments into complete lines, holding back the bytes of a line
/// whose newline has not arrived yet.
pub struct FrameSplitter {
    carry: Vec<u8>,
}

/// The views of a list of byte buffers.
pub open spec fn views(v: Seq<Vec<u8>>) -> Seq<Seq<u8>> {
    v.map_values(|l: Vec<u8>| l@)
}

impl FrameSplitter {
    /// The bytes of the unterminated line read so far.
    pub closed spec fn carry(&self) -> Seq<u8> {
        self.carry@
    }

    pub open spec fn wf(&self) -> bool {
        !self.carry().contains(NEWLINE)
    }

    pub fn new() -> (r: FrameSplitter)
        ensures
            r.carry() == Seq::<u8>::empty(),
            r.wf(),
    {
        FrameSplitter { carry: Vec::new() }
    }

    /// Appends `fragment` and returns every line it completes, in order,
    /// newline stripped. Unterminated trailing bytes stay for the next call.
    pub fn push(&mut self, fragment: &[u8]) -> (lines: Vec<Vec<u8>>)
        ensures
            split_bytes(old(self).carry(), fragment@) == (views(lines@), final(self).carry()),
            old(self).wf() ==> final(self).wf(),
    {
        let mut lines: Vec<Vec<u8>> = Vec::new();
        let mut i: usize = 0;
        while i < fragment.len()
            invariant
                0 <= i <= fragment@.len(),
                split_bytes(old(self).carry(), fragment@.subrange(0, i as int)) == (
                    views(lines@),
                    self.carry(),
                ),
            decreases fragment@.len() - i,
        {
            let b = fragment[i];
            proof {
                let s = fragment@.subrange(0, i as int + 1);
                assert(s.drop_last() =~= fragment@.subrange(0, i as int));
                assert(s.last() == b);
            }
            if b == NEWLINE {
                let mut line: Vec<u8> = Vec::new();
                std::mem::swap(&mut line, &mut self.carry);
                let ghost before = lines@;
                lines.push(line);
                proof {
                    assert(views(lines@) =~= views(before) + seq![line@]);
                }
            } else {
                self.carry.push(b);
            }
            i = i + 1;
        }
        assert(fragment@.subrange(0, fragment@.len() as int) =~= fragment@);
        proof {
            if old(self).wf() {
                lemma_split_bytes_no_newline(old(self).carry(), fragment@);
            }
        }
        lines
    }

    /// Drops the unterminated bytes held back; they never form a line.
    pub fn discard(&mut self)
        ensures
            final(self).carry() == Seq::<u8>::empty(),
            final(self).wf(),
    {
        self.carry.clear();
    }
}

} // verus!
