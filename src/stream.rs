//! Counting the records of delimited text as it streams past in chunks.
//!
//! A record ends at a line feed outside quotes; a quote character toggles
//! quoting, so a doubled quote inside a quoted field leaves it quoted. Feeding
//! the text in pieces counts the same as feeding it whole.
use vstd::prelude::*;

verus! {

/// Whether quoting is open, and how many record ends were seen, after `b` has
/// been read from the state `(quoted, ends)`.
pub open spec fn scan_bytes(quoted: bool, ends: int, b: Seq<u8>) -> (bool, int)
    decreases b.len(),
{
    if b.len() == 0 {
        (quoted, ends)
    } else {
        let (q, n) = scan_bytes(quoted, ends, b.drop_last());
        let c = b.last();
        if c == 34 {
            (!q, n)
        } else if c == 10 && !q {
            (q, n + 1)
        } else {
            (q, n)
        }
    }
}

/// Reading `a` and then `b` is reading `a + b`.
pub proof fn lemma_scan_concat(quoted: bool, ends: int, a: Seq<u8>, b: Seq<u8>)
    ensures
        ({
            let (q, n) = scan_bytes(quoted, ends, a);
            scan_bytes(q, n, b)
        }) == scan_bytes(quoted, ends, a + b),
    decreases b.len(),
{
    if b.len() > 0 {
        lemma_scan_concat(quoted, ends, a, b.drop_last());
        assert((a + b).drop_last() =~= a + b.drop_last());
    } else {
        assert(a + b =~= a);
    }
}

/// The record ends scanned never exceed the bytes read.
proof fn lemma_scan_bound(quoted: bool, ends: int, b: Seq<u8>)
    ensures
        ends <= scan_bytes(quoted, ends, b).1 <= ends + b.len(),
    decreases b.len(),
{
    if b.len() > 0 {
        lemma_scan_bound(quoted, ends, b.drop_last());
    }
}

/// The state of a count over the text read so far.
#[derive(Clone, Copy, Debug, PartialEq, Eq, Structural)]
pub struct RecordCounter {
    pub quoted: bool,
    pub ends: u64,
}

impl RecordCounter {
    /// A count before any text.
    pub fn new() -> (r: RecordCounter)
        ensures
            r.quoted == false,
            r.ends == 0,
    {
        RecordCounter { quoted: false, ends: 0 }
    }

    /// Reads `chunk`.
    pub fn feed(&mut self, chunk: &[u8])
        requires
            old(self).ends + chunk@.len() <= u64::MAX,
        ensures
            (final(self).quoted, final(self).ends as int) == scan_bytes(
                old(self).quoted,
                old(self).ends as int,
                chunk@,
            ),
    {
        let ghost q0 = self.quoted;
        let ghost n0 = self.ends as int;
        let mut i: usize = 0;
        while i < chunk.len()
            invariant
                i <= chunk@.len(),
                n0 + chunk@.len() <= u64::MAX,
                (self.quoted, self.ends as int) == scan_bytes(q0, n0, chunk@.subrange(0, i as int)),
            decreases chunk@.len() - i,
        {
            proof {
                lemma_scan_bound(q0, n0, chunk@.subrange(0, i as int));
            }
            assert(chunk@.subrange(0, i + 1).drop_last() =~= chunk@.subrange(0, i as int));
            let c = chunk[i];
            if c == 34 {
                self.quoted = !self.quoted;
            } else if c == 10 && !self.quoted {
                self.ends = self.ends + 1;
            }
            i = i + 1;
        }
        assert(chunk@.subrange(0, chunk@.len() as int) =~= chunk@);
    }

    /// The data records seen: the record ends after the header line.
    pub fn records(&self) -> (r: u64)
        ensures
            r == if self.ends == 0 {
                0
            } else {
                self.ends - 1
            },
    {
        if self.ends == 0 {
            0
        } else {
            self.ends - 1
        }
    }
}

} // verus!
