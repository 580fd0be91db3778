//! Line framing of the token's half-duplex AT protocol. The caller owns the
//! serial handle: it writes a command, then hands each read (possibly empty)
//! to a handshake or an exchange, with the milliseconds elapsed since the
//! write, and stops when the answer is no longer `Pending`.
use vstd::prelude::*;

verus! {

/// Per-read timeout set on the serial handle, in milliseconds.
pub const READ_TIMEOUT_MS: u64 = 400;

/// Deadline for the device's answer to the opening blank line, in milliseconds.
pub const HANDSHAKE_DEADLINE_MS: u64 = 1500;

/// Deadline for the device's answer to a command, in milliseconds.
pub const EXCHANGE_DEADLINE_MS: u64 = 3000;

/// Idle time between two reads, in milliseconds.
pub const POLL_INTERVAL_MS: u64 = 25;

/// Carriage return or line feed.
pub open spec fn is_terminator(c: u8) -> bool {
    c == 0x0d || c == 0x0a
}

/// The number of line feed bytes in `s`.
pub open spec fn count_newlines(s: Seq<u8>) -> nat
    decreases s.len(),
{
    if s.len() == 0 {
        0
    } else {
        count_newlines(s.drop_last()) + if s.last() == 0x0a {
            1nat
        } else {
            0nat
        }
    }
}

/// `s` with `k` trailing runs of CR/LF bytes removed from its end, together
/// with every other byte that stands after the last of them. A run is done
/// when its first byte goes. Stops early on an empty sequence.
pub open spec fn trim_runs(s: Seq<u8>, k: nat) -> Seq<u8>
    decreases s.len(),
{
    if k == 0 || s.len() == 0 {
        s
    } else if is_terminator(s.last()) && !(s.len() >= 2 && is_terminator(s[s.len() - 2])) {
        trim_runs(s.drop_last(), (k - 1) as nat)
    } else {
        trim_runs(s.drop_last(), k)
    }
}

/// What a handshake or an exchange asks of its caller after a read.
#[derive(Debug, Clone, Copy, PartialEq, Eq, Structural)]
pub enum Poll {
    /// Read again, after the poll interval.
    Pending,
    /// The answer is complete.
    Complete,
    /// The deadline passed before the answer was complete.
    TimedOut,
}

/// Trimming removes only a suffix, and when it removed at least one run,
/// what is left does not end in a line terminator.
pub proof fn lemma_trim_runs(s: Seq<u8>, k: nat)
    ensures
        trim_runs(s, k).len() <= s.len(),
        trim_runs(s, k) == s.subrange(0, trim_runs(s, k).len() as int),
        k > 0 && trim_runs(s, k).len() > 0 ==> !is_terminator(trim_runs(s, k).last()),
    decreases s.len(),
{
    if k == 0 || s.len() == 0 {
        assert(s.subrange(0, s.len() as int) =~= s);
    } else {
        let t = s.drop_last();
        if is_terminator(s.last()) && !(s.len() >= 2 && is_terminator(s[s.len() - 2])) {
            lemma_trim_runs(t, (k - 1) as nat);
            if k == 1 {
                assert(t.len() > 0 ==> t.last() == s[s.len() - 2]);
            }
        } else {
            lemma_trim_runs(t, k);
        }
        let r = trim_runs(s, k);
        assert(r =~= s.subrange(0, r.len() as int));
    }
}

proof fn lemma_count_push(s: Seq<u8>, c: u8)
    ensures
        count_newlines(s.push(c)) == count_newlines(s) + if c == 0x0a {
            1nat
        } else {
            0nat
        },
{
    assert(s.push(c).drop_last() =~= s);
}

proof fn lemma_count_bound(s: Seq<u8>)
    ensures
        count_newlines(s) <= s.len(),
    decreases s.len(),
{
    if s.len() > 0 {
        lemma_count_bound(s.drop_last());
    }
}

/// Removes `k` trailing terminator runs as `trim_runs` describes.
fn trim_in_place(buf: &mut Vec<u8>, k: usize)
    ensures
        final(buf)@ == trim_runs(old(buf)@, k as nat),
{
    let ghost k0 = k;
    let mut k = k;
    while k > 0 && buf.len() > 0
        invariant
            trim_runs(buf@, k as nat) == trim_runs(old(buf)@, k0 as nat),
        decreases buf@.len(),
    {
        let n = buf.len();
        let last = buf[n - 1];
        let run_starts = last == 0x0d || last == 0x0a;
        let run_starts = run_starts && !(n >= 2 && (buf[n - 2] == 0x0d || buf[n - 2] == 0x0a));
        buf.pop();
        if run_starts {
            k = k - 1;
        }
    }
}

/// The opening exchange: after a bare line terminator is written, the device
/// must send back at least one line feed before the handshake deadline.
pub struct Handshake {
    pub received: Vec<u8>,
}

impl Handshake {
    /// A handshake that has received nothing yet.
    pub fn new() -> (r: Handshake)
        ensures
            r.received@ == Seq::<u8>::empty(),
    {
        Handshake { received: Vec::new() }
    }

    /// Takes the bytes of one read and the milliseconds since the line
    /// terminator was written. Complete as soon as a line feed has arrived;
    /// otherwise timed out once the handshake deadline has passed.
    pub fn on_read(&mut self, chunk: &[u8], elapsed_ms: u64) -> (r: Poll)
        ensures
            final(self).received@ == old(self).received@ + chunk@,
            r == if count_newlines(final(self).received@) > 0 {
                Poll::Complete
            } else if elapsed_ms > HANDSHAKE_DEADLINE_MS {
                Poll::TimedOut
            } else {
                Poll::Pending
            },
    {
        let mut found = false;
        let mut i: usize = 0;
        while i < self.received.len()
            invariant
                self.received@ == old(self).received@,
                i <= self.received@.len(),
                found == (count_newlines(self.received@.subrange(0, i as int)) > 0),
            decreases self.received@.len() - i,
        {
            proof {
                assert(self.received@.subrange(0, i + 1) =~= self.received@.subrange(
                    0,
                    i as int,
                ).push(self.received@[i as int]));
                lemma_count_push(self.received@.subrange(0, i as int), self.received@[i as int]);
            }
            found = found || self.received[i] == 0x0a;
            i = i + 1;
        }
        assert(self.received@.subrange(0, i as int) =~= self.received@);
        let mut j: usize = 0;
        while j < chunk.len()
            invariant
                j <= chunk@.len(),
                self.received@ == old(self).received@ + chunk@.subrange(0, j as int),
                found == (count_newlines(self.received@) > 0),
            decreases chunk@.len() - j,
        {
            proof {
                lemma_count_push(self.received@, chunk@[j as int]);
            }
            self.received.push(chunk[j]);
            found = found || chunk[j] == 0x0a;
            j = j + 1;
            assert(self.received@ =~= old(self).received@ + chunk@.subrange(0, j as int));
        }
        assert(chunk@.subrange(0, j as int) =~= chunk@);
        if found {
            Poll::Complete
        } else if elapsed_ms > HANDSHAKE_DEADLINE_MS {
            Poll::TimedOut
        } else {
            Poll::Pending
        }
    }
}

/// One command's answer: the device must send `expected` line feeds before
/// the exchange deadline. When enough have arrived the response is trimmed
/// to `expected` lines' worth of payload.
pub struct Exchange {
    response: Vec<u8>,
    expected: usize,
    seen: usize,
}

impl Exchange {
    /// The bytes received so far, trimmed once the exchange is complete.
    pub closed spec fn response_view(&self) -> Seq<u8> {
        self.response@
    }

    /// The number of lines the command answers with.
    pub closed spec fn expected_lines(&self) -> nat {
        self.expected as nat
    }

    /// The count of line feeds is kept in step with the response.
    pub closed spec fn wf(&self) -> bool {
        self.seen == count_newlines(self.response@)
    }

    /// An exchange awaiting `expected` lines, with nothing received yet.
    pub fn new(expected: usize) -> (r: Exchange)
        ensures
            r.wf(),
            r.response_view() == Seq::<u8>::empty(),
            r.expected_lines() == expected,
    {
        Exchange { response: Vec::new(), expected, seen: 0 }
    }

    /// Takes the bytes of one read and the milliseconds since the command was
    /// written. Once the received bytes hold at least the expected number of
    /// line feeds, the surplus lines and the last line's terminator are
    /// trimmed off and the exchange is complete. Otherwise it has timed out
    /// once the exchange deadline has passed.
    pub fn on_read(&mut self, chunk: &[u8], elapsed_ms: u64) -> (r: Poll)
        requires
            old(self).wf(),
            old(self).response_view().len() + chunk@.len() < usize::MAX,
        ensures
            final(self).wf(),
            final(self).expected_lines() == old(self).expected_lines(),
            ({
                let all = old(self).response_view() + chunk@;
                let n = count_newlines(all);
                if n >= old(self).expected_lines() {
                    &&& r == Poll::Complete
                    &&& final(self).response_view() == trim_runs(
                        all,
                        (n - old(self).expected_lines() + 1) as nat,
                    )
                    &&& final(self).response_view() == all.subrange(
                        0,
                        final(self).response_view().len() as int,
                    )
                    &&& final(self).response_view().len() > 0 ==> !is_terminator(
                        final(self).response_view().last(),
                    )
                } else {
                    &&& final(self).response_view() == all
                    &&& r == if elapsed_ms > EXCHANGE_DEADLINE_MS {
                        Poll::TimedOut
                    } else {
                        Poll::Pending
                    }
                }
            }),
    {
        let ghost start = self.response@;
        let mut j: usize = 0;
        while j < chunk.len()
            invariant
                j <= chunk@.len(),
                start.len() + chunk@.len() < usize::MAX,
                self.response@ == start + chunk@.subrange(0, j as int),
                self.seen == count_newlines(self.response@),
                self.expected == old(self).expected,
            decreases chunk@.len() - j,
        {
            proof {
                lemma_count_push(self.response@, chunk@[j as int]);
                lemma_count_bound(self.response@);
            }
            let c = chunk[j];
            self.response.push(c);
            if c == 0x0a {
                self.seen = self.seen + 1;
            }
            j = j + 1;
            assert(self.response@ =~= start + chunk@.subrange(0, j as int));
        }
        assert(chunk@.subrange(0, j as int) =~= chunk@);
        if self.seen >= self.expected {
            let ghost all = self.response@;
            proof {
                lemma_count_bound(all);
            }
            trim_in_place(&mut self.response, self.seen - self.expected + 1);
            proof {
                lemma_trim_runs(all, (self.seen - self.expected + 1) as nat);
                lemma_count_bound(self.response@);
            }
            self.seen = self.count_seen();
            Poll::Complete
        } else if elapsed_ms > EXCHANGE_DEADLINE_MS {
            Poll::TimedOut
        } else {
            Poll::Pending
        }
    }

    fn count_seen(&self) -> (r: usize)
        ensures
            r == count_newlines(self.response@),
    {
        let mut i: usize = 0;
        let mut n: usize = 0;
        while i < self.response.len()
            invariant
                i <= self.response@.len(),
                n == count_newlines(self.response@.subrange(0, i as int)),
                n <= i,
            decreases self.response@.len() - i,
        {
            proof {
                assert(self.response@.subrange(0, i + 1) =~= self.response@.subrange(
                    0,
                    i as int,
                ).push(self.response@[i as int]));
                lemma_count_push(self.response@.subrange(0, i as int), self.response@[i as int]);
            }
            if self.response[i] == 0x0a {
                n = n + 1;
            }
            i = i + 1;
        }
        assert(self.response@.subrange(0, i as int) =~= self.response@);
        n
    }

    /// The response received so far; after completion, the trimmed payload.
    pub fn response(&self) -> (r: &Vec<u8>)
        ensures
            r@ == self.response_view(),
    {
        &self.response
    }

    /// Hands over the response.
    pub fn into_response(self) -> (r: Vec<u8>)
        ensures
            r@ == self.response_view(),
    {
        self.response
    }
}

} // verus!
