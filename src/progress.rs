use vstd::prelude::*;

verus! {

/// One progress report of a transfer: bytes written so far, the size the
/// server announced (if any), and whether the transfer has ended.
#[derive(Debug, Clone, Copy, PartialEq, Eq, Structural)]
pub struct DownloadProgress {
    pub current_bytes: u64,
    pub total_bytes: Option<u64>,
    pub done: bool,
}

/// Why a transfer failed.
#[derive(Debug, Clone, Copy, PartialEq, Eq, Structural)]
pub enum TransferError {
    /// The server answered with a status outside 2xx.
    HttpStatus(u16),
    /// The request or the response body could not be read.
    Network,
    /// Creating or writing the target file failed.
    Io,
    /// The receiver of progress events is gone.
    ProgressChannelClosed,
    /// The byte count would no longer fit in 64 bits.
    TooLarge,
}

/// Sum of the first `n` chunk sizes.
pub open spec fn bytes_after(chunks: Seq<u64>, n: int) -> int
    decreases n,
{
    if n <= 0 {
        0
    } else {
        bytes_after(chunks, n - 1) + chunks[n - 1] as int
    }
}

/// The events a transfer of `chunks` emits: one per chunk with the running
/// total, then one closing event with `done` set.
pub open spec fn transfer_events(chunks: Seq<u64>, total: Option<u64>) -> Seq<DownloadProgress> {
    Seq::new(
        (chunks.len() + 1) as nat,
        |i: int|
            DownloadProgress {
                current_bytes: bytes_after(chunks, i + if i < chunks.len() { 1int } else { 0int }) as u64,
                total_bytes: total,
                done: i == chunks.len(),
            },
    )
}

pub proof fn lemma_bytes_after_monotone(chunks: Seq<u64>, i: int, j: int)
    requires
        0 <= i <= j,
    ensures
        bytes_after(chunks, i) <= bytes_after(chunks, j),
    decreases j - i,
{
    if i < j {
        lemma_bytes_after_monotone(chunks, i, j - 1);
    }
}

/// The sender side of one transfer: how many bytes have been written and the
/// size announced by the server.
pub struct TransferState {
    pub written: u64,
    pub total: Option<u64>,
}

impl TransferState {
    pub fn new(total: Option<u64>) -> (r: TransferState)
        ensures
            r.written == 0,
            r.total == total,
    {
        TransferState { written: 0, total }
    }

    /// Records a chunk of `len` bytes that was written to disk and returns
    /// the event to report for it.
    pub fn on_chunk(&mut self, len: u64) -> (ev: DownloadProgress)
        requires
            old(self).written + len <= u64::MAX,
        ensures
            final(self).written == old(self).written + len,
            final(self).total == old(self).total,
            ev == (DownloadProgress {
                current_bytes: final(self).written,
                total_bytes: old(self).total,
                done: false,
            }),
    {
        self.written = self.written + len;
        DownloadProgress { current_bytes: self.written, total_bytes: self.total, done: false }
    }

    /// The closing event, sent once the body is exhausted.
    pub fn finish(&self) -> (ev: DownloadProgress)
        ensures
            ev == (DownloadProgress { current_bytes: self.written, total_bytes: self.total, done: true }),
    {
        DownloadProgress { current_bytes: self.written, total_bytes: self.total, done: true }
    }
}

/// The events a transfer emits when the body arrives as `chunks`.
pub fn progress_events(chunks: &Vec<u64>, total: Option<u64>) -> (r: Vec<DownloadProgress>)
    requires
        bytes_after(chunks@, chunks@.len() as int) <= u64::MAX,
    ensures
        r@ == transfer_events(chunks@, total),
{
    let mut st = TransferState::new(total);
    let mut r: Vec<DownloadProgress> = Vec::new();
    let mut i: usize = 0;
    while i < chunks.len()
        invariant
            0 <= i <= chunks@.len(),
            st.total == total,
            st.written as int == bytes_after(chunks@, i as int),
            bytes_after(chunks@, chunks@.len() as int) <= u64::MAX,
            r@.len() == i,
            forall|k: int| 0 <= k < i ==> r@[k] == transfer_events(chunks@, total)[k],
        decreases chunks@.len() - i,
    {
        proof {
            lemma_bytes_after_monotone(chunks@, i + 1, chunks@.len() as int);
        }
        let ev = st.on_chunk(chunks[i]);
        r.push(ev);
        i = i + 1;
    }
    r.push(st.finish());
    assert(r@ =~= transfer_events(chunks@, total));
    r
}

/// Within one transfer the reported byte counts never decrease, the last
/// event carries the full byte count, and `done` is set on the last event
/// and on no other.
pub proof fn lemma_progress_monotone(chunks: Seq<u64>, total: Option<u64>)
    requires
        bytes_after(chunks, chunks.len() as int) <= u64::MAX,
    ensures
        ({
            let evs = transfer_events(chunks, total);
            &&& evs.len() == chunks.len() + 1
            &&& forall|i: int, j: int|
                0 <= i <= j < evs.len() ==> evs[i].current_bytes <= evs[j].current_bytes
            &&& evs.last().done
            &&& evs.last().current_bytes == bytes_after(chunks, chunks.len() as int)
            &&& forall|i: int| 0 <= i < evs.len() && evs[i].done ==> i == evs.len() - 1
        }),
{
    let evs = transfer_events(chunks, total);
    let n = chunks.len() as int;
    assert forall|i: int, j: int| 0 <= i <= j < evs.len() implies evs[i].current_bytes
        <= evs[j].current_bytes by {
        let a = i + if i < n { 1int } else { 0int };
        let b = j + if j < n { 1int } else { 0int };
        lemma_bytes_after_monotone(chunks, a, b);
        lemma_bytes_after_monotone(chunks, b, n);
        lemma_bytes_after_monotone(chunks, a, n);
        lemma_bytes_after_monotone(chunks, 0, a);
        assert(evs[i].current_bytes == bytes_after(chunks, a));
        assert(evs[j].current_bytes == bytes_after(chunks, b));
    }
    lemma_bytes_after_monotone(chunks, 0, n);
    assert(evs.last().current_bytes == bytes_after(chunks, n));
}

/// Rate in bytes per second for `delta` bytes over `elapsed_ms` milliseconds,
/// capped at `u64::MAX`.
pub open spec fn rate_of(delta: int, elapsed_ms: int) -> int {
    let r = delta * 1000 / elapsed_ms;
    if r > u64::MAX {
        u64::MAX as int
    } else {
        r
    }
}

/// Minimum interval between two throughput estimates, in milliseconds.
pub const RATE_INTERVAL_MS: u64 = 100;

/// What the display side knows of one transfer.
pub struct ProgressAggregator {
    pub current: u64,
    pub total: Option<u64>,
    pub bytes_per_sec: u64,
    pub last_bytes: u64,
    pub last_ms: u64,
    pub finished: bool,
}

impl ProgressAggregator {
    pub fn new(start_ms: u64) -> (r: ProgressAggregator)
        ensures
            r.current == 0,
            r.total.is_none(),
            r.bytes_per_sec == 0,
            r.last_bytes == 0,
            r.last_ms == start_ms,
            !r.finished,
    {
        ProgressAggregator {
            current: 0,
            total: None,
            bytes_per_sec: 0,
            last_bytes: 0,
            last_ms: start_ms,
            finished: false,
        }
    }

    /// Takes in one event received at time `now_ms`. A total is adopted the
    /// first time one is known and kept from then on; the throughput is recomputed once at least
    /// `RATE_INTERVAL_MS` have passed since the last estimate; a `done` event
    /// ends the aggregation.
    pub fn observe(&mut self, ev: DownloadProgress, now_ms: u64)
        requires
            !old(self).finished,
            old(self).last_ms <= now_ms,
        ensures
            final(self).current == ev.current_bytes,
            final(self).total == (match old(self).total {
                None => ev.total_bytes,
                Some(z) => Some(z),
            }),
            final(self).finished == ev.done,
            now_ms - old(self).last_ms >= RATE_INTERVAL_MS ==> {
                &&& final(self).last_ms == now_ms
                &&& final(self).last_bytes == ev.current_bytes
                &&& final(self).bytes_per_sec == rate_of(
                    if ev.current_bytes >= old(self).last_bytes {
                        ev.current_bytes - old(self).last_bytes
                    } else {
                        0
                    },
                    now_ms - old(self).last_ms,
                )
            },
            now_ms - old(self).last_ms < RATE_INTERVAL_MS ==> {
                &&& final(self).last_ms == old(self).last_ms
                &&& final(self).last_bytes == old(self).last_bytes
                &&& final(self).bytes_per_sec == old(self).bytes_per_sec
            },
    {
        if self.total.is_none() {
            self.total = ev.total_bytes;
        }
        self.current = ev.current_bytes;
        let elapsed = now_ms - self.last_ms;
        if elapsed >= RATE_INTERVAL_MS {
            let delta = ev.current_bytes.saturating_sub(self.last_bytes);
            let r = (delta as u128) * 1000 / (elapsed as u128);
            self.bytes_per_sec = if r > u64::MAX as u128 {
                u64::MAX
            } else {
                r as u64
            };
            self.last_bytes = ev.current_bytes;
            self.last_ms = now_ms;
        }
        self.finished = ev.done;
    }
}

} // verus!
