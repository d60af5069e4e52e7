//! Decisions of the bandwidth measurement: which transfer sizes to request,
//! when to move to a larger one, what each request is, how the transferred
//! bytes are counted, and how an upload body is cut into chunks.
use vstd::prelude::*;
use crate::endpoints::{download_url, download_url_spec, UPLOAD_URL};

verus! {

/// The transfer sizes tried for a download, smallest first (about 1, 10, 25 and 100 MB).
pub open spec fn download_sizes() -> Seq<usize> {
    seq![1001000usize, 10001000usize, 25001000usize, 100001000usize]
}

/// The transfer sizes tried for an upload, smallest first (1, 10 and 25 MB).
pub open spec fn upload_sizes() -> Seq<usize> {
    seq![1000000usize, 10000000usize, 25000000usize]
}

/// The transfer sizes of one measurement, in the order they are tried.
pub fn bandwidth_sizes(is_download: bool) -> (sizes: Vec<usize>)
    ensures
        sizes@ == if is_download { download_sizes() } else { upload_sizes() },
{
    let sizes = if is_download {
        vec![1001000usize, 10001000usize, 25001000usize, 100001000usize]
    } else {
        vec![1000000usize, 10000000usize, 25000000usize]
    };
    assert(sizes@ =~= if is_download { download_sizes() } else { upload_sizes() });
    sizes
}

/// The name under which a measurement's result is shown.
pub fn bandwidth_label(is_download: bool) -> (label: &'static str)
    ensures
        label@ == if is_download { "Download Speed"@ } else { "Upload Speed"@ },
{
    if is_download {
        "Download Speed"
    } else {
        "Upload Speed"
    }
}

/// Nanoseconds in one second: a transfer faster than this moves the
/// schedule to the next size.
pub const ONE_SECOND_NANOS: u128 = 1_000_000_000;

/// Walks through the transfer sizes: it starts with the smallest and moves
/// to the next each time a transfer completes in under a second, staying
/// at the largest once it gets there.
pub struct SizeSchedule {
    sizes: Vec<usize>,
    index: usize,
}

/// The position after one transfer that took `elapsed_nanos`.
pub open spec fn next_index(len: nat, index: nat, elapsed_nanos: u128) -> nat {
    if elapsed_nanos < ONE_SECOND_NANOS && index + 1 < len {
        index + 1
    } else {
        index
    }
}

impl SizeSchedule {
    /// The sizes being walked through.
    pub closed spec fn sizes(&self) -> Seq<usize> {
        self.sizes@
    }

    /// The position of the size requested next.
    pub closed spec fn index(&self) -> nat {
        self.index as nat
    }

    /// The position stays within the sizes.
    #[verifier::type_invariant]
    spec fn position_within_sizes(&self) -> bool {
        self.index < self.sizes@.len()
    }

    /// A schedule at the first of `sizes`.
    pub fn new(sizes: Vec<usize>) -> (s: Self)
        requires
            sizes@.len() > 0,
        ensures
            s.index() < s.sizes().len(),
            s.sizes() == sizes@,
            s.index() == 0,
    {
        SizeSchedule { sizes, index: 0 }
    }

    /// What to send next: nothing once the measurement is cancelled, else
    /// the current size.
    pub fn next_size(&self, cancelled: bool) -> (r: Option<usize>)
        ensures
            self.index() < self.sizes().len(),
            r == if cancelled { None } else { Some(self.sizes()[self.index() as int]) },
    {
        proof {
            use_type_invariant(self);
        }
        if cancelled {
            None
        } else {
            Some(self.sizes[self.index])
        }
    }

    /// Takes note that a transfer took `elapsed_nanos`.
    pub fn record(&mut self, elapsed_nanos: u128)
        ensures
            old(self).index() < old(self).sizes().len(),
            final(self).index() < final(self).sizes().len(),
            final(self).sizes() == old(self).sizes(),
            final(self).index() == next_index(
                old(self).sizes().len(),
                old(self).index(),
                elapsed_nanos,
            ),
    {
        proof {
            use_type_invariant(&*self);
        }
        if elapsed_nanos < ONE_SECOND_NANOS && self.index < self.sizes.len() - 1 {
            self.index = self.index + 1;
        }
    }
}

/// The request a transfer worker makes for one size.
#[derive(Debug)]
pub enum TransferRequest {
    /// Fetch `url`, whose body holds the requested number of bytes.
    Download { url: String },
    /// Send `size` bytes to `url`, in chunks of at most `chunk_size` bytes.
    Upload { url: String, size: usize, chunk_size: usize },
}

/// The size of the chunks in which an upload body is sent.
pub const UPLOAD_CHUNK_SIZE: usize = 8192;

/// The request for a transfer of `size` bytes, or `None` once the
/// measurement is cancelled.
pub fn transfer_request(size: usize, is_download: bool, cancelled: bool) -> (r: Option<
    TransferRequest,
>)
    ensures
        cancelled ==> r is None,
        !cancelled && is_download ==> (r matches Some(TransferRequest::Download { url }) && url@
            == download_url_spec(size as nat)),
        !cancelled && !is_download ==> (r matches Some(
            TransferRequest::Upload { url, size: s, chunk_size },
        ) && url@ == UPLOAD_URL@ && s == size && chunk_size == UPLOAD_CHUNK_SIZE),
{
    if cancelled {
        None
    } else if is_download {
        Some(TransferRequest::Download { url: download_url(size) })
    } else {
        Some(TransferRequest::Upload { url: String::from_str(UPLOAD_URL), size, chunk_size: UPLOAD_CHUNK_SIZE })
    }
}

/// Counts the bytes that arrive during a measurement and decides when the
/// progress display moves: on every tenth arrival.
pub struct ByteCounter {
    total_bytes: u64,
    arrivals: i32,
}

impl ByteCounter {
    /// The bytes counted so far.
    pub closed spec fn total(&self) -> nat {
        self.total_bytes as nat
    }

    /// The arrivals counted so far.
    pub closed spec fn count(&self) -> int {
        self.arrivals as int
    }

    /// No arrival is counted negatively.
    #[verifier::type_invariant]
    spec fn count_not_negative(&self) -> bool {
        self.arrivals >= 0
    }

    /// A counter with nothing counted.
    pub fn new() -> (c: Self)
        ensures
            c.total() == 0,
            c.count() == 0,
    {
        ByteCounter { total_bytes: 0, arrivals: 0 }
    }

    /// Counts the arrival of `bytes` bytes; returns whether the progress
    /// display moves, which it does on every tenth arrival.
    pub fn record(&mut self, bytes: u64) -> (tick: bool)
        requires
            old(self).total() + bytes <= u64::MAX,
            old(self).count() < i32::MAX,
        ensures
            old(self).count() >= 0,
            final(self).total() == old(self).total() + bytes,
            final(self).count() == old(self).count() + 1,
            final(self).count() >= 1,
            tick == (final(self).count() % 10 == 0),
    {
        proof {
            use_type_invariant(&*self);
        }
        self.total_bytes = self.total_bytes + bytes;
        self.arrivals = self.arrivals + 1;
        self.arrivals % 10 == 0
    }

    /// The bytes counted so far.
    pub fn total_bytes(&self) -> (t: u64)
        ensures
            t == self.total(),
    {
        self.total_bytes
    }

    /// The arrivals counted so far.
    pub fn arrivals(&self) -> (n: i32)
        ensures
            n == self.count(),
            n >= 0,
    {
        proof {
            use_type_invariant(self);
        }
        self.arrivals
    }

    /// The bytes counted so far in whole MiB, rounded down.
    pub fn used_mib(&self) -> (mib: u64)
        ensures
            mib == self.total() / 1024 / 1024,
    {
        self.total_bytes / 1024 / 1024
    }
}

#[verifier::external_type_specification]
#[verifier::external_body]
pub struct ExBytes(bytes::Bytes);

/// What a `bytes::Bytes` buffer holds.
pub uninterp spec fn bytes_contents(b: bytes::Bytes) -> Seq<u8>;

/// Calls `bytes::Bytes::copy_from_slice`, which makes a buffer holding a
/// copy of `data`: the contract claims that the buffer's contents are
/// exactly the bytes of `data`.
#[verifier::external_body]
fn bytes_from_slice(data: &[u8]) -> (b: bytes::Bytes)
    ensures
        bytes_contents(b) == data@,
{
    bytes::Bytes::copy_from_slice(data)
}

/// Cuts an upload body of `max_size` zero bytes into chunks of at most
/// `chunk_size` bytes, handed out in order.
pub struct DummyVecStream {
    max_size: usize,
    chunk_size: usize,
    cursor: usize,
}

/// The lengths of the chunks still to come from position `cursor`, in order.
pub open spec fn chunk_lengths(max_size: nat, chunk_size: nat, cursor: nat) -> Seq<nat>
    decreases max_size - cursor,
{
    if cursor >= max_size || chunk_size == 0 {
        Seq::empty()
    } else {
        let end = if cursor + chunk_size < max_size { cursor + chunk_size } else { max_size };
        seq![(end - cursor) as nat] + chunk_lengths(max_size, chunk_size, end)
    }
}

/// The sum of a sequence of lengths.
pub open spec fn total_length(lengths: Seq<nat>) -> nat
    decreases lengths.len(),
{
    if lengths.len() == 0 {
        0
    } else {
        lengths[0] + total_length(lengths.drop_first())
    }
}

impl DummyVecStream {
    /// The size of the whole body.
    pub closed spec fn max_size_spec(&self) -> nat {
        self.max_size as nat
    }

    /// The largest chunk handed out.
    pub closed spec fn chunk_size_spec(&self) -> nat {
        self.chunk_size as nat
    }

    /// How much of the body has been handed out.
    pub closed spec fn position(&self) -> nat {
        self.cursor as nat
    }

    /// A stream at the start of a body of `max_size` bytes.
    pub fn new(max_size: usize, chunk_size: usize) -> (s: Self)
        ensures
            s.max_size_spec() == max_size,
            s.chunk_size_spec() == chunk_size,
            s.position() == 0,
    {
        DummyVecStream { max_size, chunk_size, cursor: 0 }
    }

    /// The size of the whole body.
    pub fn max_size(&self) -> (n: usize)
        ensures
            n == self.max_size_spec(),
    {
        self.max_size
    }

    /// The largest chunk handed out.
    pub fn chunk_size(&self) -> (n: usize)
        ensures
            n == self.chunk_size_spec(),
    {
        self.chunk_size
    }

    /// How much of the body has been handed out.
    pub fn cursor(&self) -> (n: usize)
        ensures
            n == self.position(),
    {
        self.cursor
    }

    /// The next chunk: `None` once the whole body has been handed out, else
    /// the zero bytes from the position up to `chunk_size` further, or to the
    /// end of the body if that comes first.
    pub fn next_chunk(&mut self) -> (chunk: Option<bytes::Bytes>)
        requires
            old(self).position() >= old(self).max_size_spec() || old(self).position()
                + old(self).chunk_size_spec() <= usize::MAX,
        ensures
            final(self).max_size_spec() == old(self).max_size_spec(),
            final(self).chunk_size_spec() == old(self).chunk_size_spec(),
            old(self).position() >= old(self).max_size_spec() ==> chunk is None && final(self).position()
                == old(self).position(),
            old(self).position() < old(self).max_size_spec() ==> {
                let end = if old(self).position() + old(self).chunk_size_spec()
                    < old(self).max_size_spec() {
                    old(self).position() + old(self).chunk_size_spec()
                } else {
                    old(self).max_size_spec()
                };
                &&& chunk matches Some(bytes)
                &&& bytes_contents(bytes) == Seq::new((end - old(self).position()) as nat, |i: int| 0u8)
                &&& final(self).position() == end
                &&& old(self).chunk_size_spec() > 0 ==> chunk_lengths(
                    old(self).max_size_spec(),
                    old(self).chunk_size_spec(),
                    old(self).position(),
                ) == seq![bytes_contents(bytes).len()] + chunk_lengths(
                    final(self).max_size_spec(),
                    final(self).chunk_size_spec(),
                    final(self).position(),
                )
            },
    {
        if self.cursor >= self.max_size {
            None
        } else {
            let end = if self.cursor + self.chunk_size < self.max_size {
                self.cursor + self.chunk_size
            } else {
                self.max_size
            };
            let len = end - self.cursor;
            let zeros = vec![0u8; len];
            assert(zeros@ =~= Seq::new(len as nat, |i: int| 0u8));
            self.cursor = end;
            Some(bytes_from_slice(zeros.as_slice()))
        }
    }
}

/// Law: from any position within the body, the chunks still to come cover
/// exactly the rest of the body, and each is non-empty and at most
/// `chunk_size` bytes long (for a positive `chunk_size`).
pub proof fn law_chunks_cover_rest(max_size: nat, chunk_size: nat, cursor: nat)
    requires
        chunk_size > 0,
        cursor <= max_size,
    ensures
        total_length(chunk_lengths(max_size, chunk_size, cursor)) == max_size - cursor,
        forall|i: int|
            0 <= i < chunk_lengths(max_size, chunk_size, cursor).len() ==> 0 < #[trigger] chunk_lengths(
                max_size,
                chunk_size,
                cursor,
            )[i] <= chunk_size,
    decreases max_size - cursor,
{
    if cursor < max_size {
        let end = if cursor + chunk_size < max_size { cursor + chunk_size } else { max_size };
        law_chunks_cover_rest(max_size, chunk_size, end);
        let rest = chunk_lengths(max_size, chunk_size, end);
        let all = chunk_lengths(max_size, chunk_size, cursor);
        assert(all == seq![(end - cursor) as nat] + rest);
        assert(all.drop_first() =~= rest);
        assert forall|i: int| 0 <= i < all.len() implies 0 < #[trigger] all[i] <= chunk_size by {
            if i > 0 {
                assert(all[i] == rest[i - 1]);
            }
        }
    }
}

/// Law: from position `cursor`, the chunks still to come number the rest of
/// the body divided by `chunk_size`, rounded up, and the `k`-th of them (from
/// 0) is `chunk_size` long where that much of the body is left after the `k`
/// before it, else the rest of the body.
pub proof fn law_chunk_count_and_lengths(max_size: nat, chunk_size: nat, cursor: nat)
    requires
        chunk_size > 0,
        cursor <= max_size,
    ensures
        chunk_lengths(max_size, chunk_size, cursor).len() == ((max_size - cursor) + chunk_size - 1)
            as nat / chunk_size,
        forall|k: int|
            0 <= k < chunk_lengths(max_size, chunk_size, cursor).len() ==> #[trigger] chunk_lengths(
                max_size,
                chunk_size,
                cursor,
            )[k] == if max_size - cursor - k * chunk_size < chunk_size {
                max_size - cursor - k * chunk_size
            } else {
                chunk_size as int
            },
    decreases max_size - cursor,
{
    let all = chunk_lengths(max_size, chunk_size, cursor);
    let left = (max_size - cursor) as nat;
    if cursor == max_size {
        assert((chunk_size - 1) as nat / chunk_size == 0) by (nonlinear_arith)
            requires
                chunk_size > 0,
        ;
    } else if cursor + chunk_size < max_size {
        let end = cursor + chunk_size;
        law_chunk_count_and_lengths(max_size, chunk_size, end);
        let rest = chunk_lengths(max_size, chunk_size, end);
        assert(all == seq![chunk_size] + rest);
        let x = (left - 1) as int;
        vstd::arithmetic::div_mod::lemma_div_plus_one(x, chunk_size as int);
        assert(((max_size - end) + chunk_size - 1) as nat == x);
        assert(((max_size - cursor) + chunk_size - 1) as nat == chunk_size + x);
        assert forall|k: int| 0 <= k < all.len() implies #[trigger] all[k] == if max_size - cursor - k * chunk_size
            < chunk_size {
            max_size - cursor - k * chunk_size
        } else {
            chunk_size as int
        } by {
            if k > 0 {
                assert(all[k] == rest[k - 1]);
                assert(max_size - end - (k - 1) * chunk_size == max_size - cursor - k * chunk_size)
                    by (nonlinear_arith)
                    requires
                        end == cursor + chunk_size,
                ;
            }
        }
    } else {
        assert(chunk_lengths(max_size, chunk_size, max_size).len() == 0);
        assert(all == seq![left]);
        assert((left + chunk_size - 1) as nat / chunk_size == 1) by (nonlinear_arith)
            requires
                chunk_size > 0,
                0 < left <= chunk_size,
        ;
        assert(0 * chunk_size == 0);
    }
}

/// Law: a stream handed out from its start yields a body of exactly
/// `max_size` bytes, in `max_size / chunk_size` chunks rounded up, the `k`-th
/// of which (from 0) is `min(chunk_size, max_size - k * chunk_size)` long.
pub proof fn law_stream_yields_whole_body(s: DummyVecStream)
    requires
        s.chunk_size_spec() > 0,
        s.position() == 0,
    ensures
        total_length(chunk_lengths(s.max_size_spec(), s.chunk_size_spec(), s.position()))
            == s.max_size_spec(),
        chunk_lengths(s.max_size_spec(), s.chunk_size_spec(), s.position()).len() == (
        s.max_size_spec() + s.chunk_size_spec() - 1) as nat / s.chunk_size_spec(),
        forall|k: int|
            0 <= k < chunk_lengths(s.max_size_spec(), s.chunk_size_spec(), s.position()).len()
                ==> #[trigger] chunk_lengths(s.max_size_spec(), s.chunk_size_spec(), s.position())[k]
                == if s.max_size_spec() - k * s.chunk_size_spec() < s.chunk_size_spec() {
                s.max_size_spec() - k * s.chunk_size_spec()
            } else {
                s.chunk_size_spec() as int
            },
{
    law_chunks_cover_rest(s.max_size_spec(), s.chunk_size_spec(), 0);
    law_chunk_count_and_lengths(s.max_size_spec(), s.chunk_size_spec(), 0);
}

/// The position of a schedule over `len` sizes after transfers that took
/// `times`, starting from position `index`.
pub open spec fn index_after(len: nat, index: nat, times: Seq<u128>) -> nat
    decreases times.len(),
{
    if times.len() == 0 {
        index
    } else {
        next_index(len, index_after(len, index, times.drop_last()), times.last())
    }
}

/// Law: whatever the transfers take, the schedule's position stays among the
/// sizes, never moves back, and moves at most one size per transfer.
pub proof fn law_schedule_stays_in_range(len: nat, index: nat, times: Seq<u128>)
    requires
        index < len,
    ensures
        index <= index_after(len, index, times) < len,
        index_after(len, index, times) <= index + times.len(),
    decreases times.len(),
{
    if times.len() > 0 {
        law_schedule_stays_in_range(len, index, times.drop_last());
    }
}

/// Law: a schedule whose transfers all complete within a second reaches the
/// largest size after one transfer per remaining step, and stays there.
pub proof fn law_fast_transfers_reach_largest(len: nat, index: nat, times: Seq<u128>)
    requires
        index < len,
        forall|i: int| 0 <= i < times.len() ==> #[trigger] times[i] < ONE_SECOND_NANOS,
    ensures
        index_after(len, index, times) == if index + times.len() < len {
            index + times.len()
        } else {
            (len - 1) as nat
        },
    decreases times.len(),
{
    if times.len() > 0 {
        let init = times.drop_last();
        assert forall|i: int| 0 <= i < init.len() implies #[trigger] init[i] < ONE_SECOND_NANOS by {
            assert(init[i] == times[i]);
        }
        law_fast_transfers_reach_largest(len, index, init);
        assert(times.last() == times[times.len() - 1]);
    }
}

/// Law: a transfer that took a second or more leaves the schedule where it
/// was, and one that took less moves it to the next size unless it is
/// already at the largest, however long or short the transfer was.
pub proof fn law_slow_transfer_keeps_size(len: nat, index: nat, elapsed_nanos: u128)
    requires
        index < len,
    ensures
        elapsed_nanos >= 1_000_000_000 ==> next_index(len, index, elapsed_nanos) == index,
        elapsed_nanos < 1_000_000_000 && index + 1 < len ==> next_index(len, index, elapsed_nanos)
            == index + 1,
        elapsed_nanos < 1_000_000_000 && index + 1 == len ==> next_index(len, index, elapsed_nanos)
            == index,
{
}

/// Law: a run of transfers that each took a second or more leaves the
/// schedule where it started.
pub proof fn law_slow_transfers_keep_size(len: nat, index: nat, times: Seq<u128>)
    requires
        index < len,
        forall|i: int| 0 <= i < times.len() ==> #[trigger] times[i] >= 1_000_000_000,
    ensures
        index_after(len, index, times) == index,
    decreases times.len(),
{
    if times.len() > 0 {
        let init = times.drop_last();
        assert forall|i: int| 0 <= i < init.len() implies #[trigger] init[i] >= 1_000_000_000 by {
            assert(init[i] == times[i]);
        }
        law_slow_transfers_keep_size(len, index, init);
        assert(times.last() == times[times.len() - 1]);
    }
}

/// The total of a run of arrivals.
pub open spec fn sum_bytes(arrivals: Seq<u64>) -> nat
    decreases arrivals.len(),
{
    if arrivals.len() == 0 {
        0
    } else {
        sum_bytes(arrivals.drop_last()) + arrivals.last() as nat
    }
}

/// Law: a counter that starts empty and then counts a run of arrivals,
/// each state following the one before as `record` leaves it, holds the sum
/// of the arrivals and their number, and has moved the display once per ten.
pub proof fn law_counter_sums_arrivals(states: Seq<ByteCounter>, arrivals: Seq<u64>, ticks: Seq<bool>)
    requires
        states.len() == arrivals.len() + 1,
        ticks.len() == arrivals.len(),
        states[0].total() == 0,
        states[0].count() == 0,
        forall|i: int|
            0 <= i < arrivals.len() ==> {
                &&& #[trigger] states[i + 1].total() == states[i].total() + arrivals[i]
                &&& states[i + 1].count() == states[i].count() + 1
                &&& ticks[i] == (states[i + 1].count() % 10 == 0)
            },
    ensures
        states.last().total() == sum_bytes(arrivals),
        states.last().count() == arrivals.len(),
        forall|i: int| 0 <= i < ticks.len() ==> (#[trigger] ticks[i] <==> (i + 1) % 10 == 0),
    decreases arrivals.len(),
{
    if arrivals.len() > 0 {
        let n = arrivals.len() as int;
        law_counter_sums_arrivals(states.drop_last(), arrivals.drop_last(), ticks.drop_last());
        assert(states.drop_last().last() == states[n - 1]);
        assert(arrivals.last() == arrivals[n - 1]);
        assert(states[n].total() == states[n - 1].total() + arrivals[n - 1]);
        assert forall|i: int| 0 <= i < ticks.len() implies (#[trigger] ticks[i] <==> (i + 1) % 10 == 0) by {
            if i < n - 1 {
                assert(ticks.drop_last()[i] == ticks[i]);
            } else {
                assert(states[i + 1].count() == i + 1);
            }
        }
    }
}

} // verus!
