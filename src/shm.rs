use vstd::prelude::*;

verus! {

/// Size in bytes of each shared region a node creates at startup.
pub const SHM_SIZE: usize = 10485760;

/// Why a transfer through a shared region was refused.
#[derive(Debug, Clone, Copy, PartialEq, Eq, Structural)]
pub enum ShmError {
    /// The payload is longer than the whole region.
    PayloadTooLarge { len: usize, capacity: usize },
    /// The span `offset .. offset + len` does not lie inside the region.
    OutOfBounds { offset: usize, len: usize, capacity: usize },
}

/// Where a write of `len` bytes starts when the cursor stands at `offset`:
/// a write that would run past the end starts over at the beginning.
pub open spec fn placement(offset: nat, capacity: nat, len: nat) -> nat {
    if offset + len > capacity {
        0
    } else {
        offset
    }
}

/// `region` with `data` copied over it from `start` on.
pub open spec fn written(region: Seq<u8>, start: nat, data: Seq<u8>) -> Seq<u8> {
    region.subrange(0, start as int) + data + region.subrange(
        (start + data.len()) as int,
        region.len() as int,
    )
}

/// Whether `offset .. offset + len` lies inside a region of `capacity` bytes.
pub open spec fn span_fits(offset: nat, len: nat, capacity: nat) -> bool {
    offset + len <= capacity
}

/// Write cursor of one shared region.
pub struct RingCursor {
    capacity: usize,
    offset: usize,
}

impl RingCursor {
    pub open spec fn wf(&self) -> bool {
        self.offset_spec() <= self.capacity_spec()
    }

    pub closed spec fn capacity_spec(&self) -> nat {
        self.capacity as nat
    }

    pub closed spec fn offset_spec(&self) -> nat {
        self.offset as nat
    }

    /// A cursor at the start of a region of `capacity` bytes.
    pub fn new(capacity: usize) -> (r: RingCursor)
        ensures
            r.wf(),
            r.capacity_spec() == capacity,
            r.offset_spec() == 0,
    {
        RingCursor { capacity, offset: 0 }
    }

    pub fn capacity(&self) -> (r: usize)
        ensures
            r == self.capacity_spec(),
    {
        self.capacity
    }

    pub fn offset(&self) -> (r: usize)
        ensures
            r == self.offset_spec(),
    {
        self.offset
    }

    /// Claims `len` bytes and returns where they start; the cursor then stands
    /// just past them. A claim that does not fit before the end starts at 0.
    pub fn claim(&mut self, len: usize) -> (r: Result<usize, ShmError>)
        requires
            old(self).wf(),
        ensures
            final(self).wf(),
            final(self).capacity_spec() == old(self).capacity_spec(),
            r is Ok <==> len <= old(self).capacity_spec(),
            match r {
                Ok(start) => {
                    &&& start == placement(old(self).offset_spec(), old(self).capacity_spec(), len as nat)
                    &&& old(self).offset_spec() + len > old(self).capacity_spec() ==> start == 0
                    &&& final(self).offset_spec() == start + len
                },
                Err(e) => {
                    &&& e == (ShmError::PayloadTooLarge { len, capacity: old(self).capacity_spec() as usize })
                    &&& final(self).offset_spec() == old(self).offset_spec()
                },
            },
    {
        if len > self.capacity {
            return Err(ShmError::PayloadTooLarge { len, capacity: self.capacity });
        }
        if len > self.capacity - self.offset {
            self.offset = 0;
        }
        let start = self.offset;
        self.offset = start + len;
        Ok(start)
    }
}

/// Copies `data` into `region` from `start` on.
fn copy_into(region: &mut [u8], start: usize, data: &[u8])
    requires
        start + data@.len() <= old(region)@.len(),
    ensures
        final(region)@ == written(old(region)@, start as nat, data@),
{
    let n = data.len();
    let cap = region.len();
    let mut i: usize = 0;
    while i < n
        invariant
            n == data@.len(),
            cap == region@.len(),
            i <= n,
            start + n <= region@.len(),
            region@.len() == old(region)@.len(),
            forall|k: int| 0 <= k < start ==> region@[k] == old(region)@[k],
            forall|k: int| 0 <= k < i ==> region@[start + k] == data@[k],
            forall|k: int| start + i <= k < region@.len() ==> region@[k] == old(region)@[k],
        decreases n - i,
    {
        region[start + i] = data[i];
        i = i + 1;
    }
    assert(region@ =~= written(old(region)@, start as nat, data@));
}

/// Copies the `len` bytes at `offset` out of `region`. A span that does not lie
/// inside the region is refused.
pub fn read_span(region: &[u8], offset: usize, len: usize) -> (r: Result<Vec<u8>, ShmError>)
    ensures
        r is Ok <==> span_fits(offset as nat, len as nat, region@.len()),
        match r {
            Ok(bytes) => bytes@ == region@.subrange(offset as int, offset + len),
            Err(e) => e == (ShmError::OutOfBounds { offset, len, capacity: region@.len() as usize }),
        },
{
    let capacity = region.len();
    if offset > capacity || len > capacity - offset {
        return Err(ShmError::OutOfBounds { offset, len, capacity });
    }
    let mut out: Vec<u8> = Vec::with_capacity(len);
    let mut i: usize = 0;
    while i < len
        invariant
            i <= len,
            offset + len <= capacity,
            capacity == region@.len(),
            out@ == region@.subrange(offset as int, offset + i),
        decreases len - i,
    {
        out.push(region[offset + i]);
        i = i + 1;
        assert(out@ =~= region@.subrange(offset as int, offset + i));
    }
    Ok(out)
}

/// Total length of a sequence of payloads.
pub open spec fn total_len(ws: Seq<Seq<u8>>) -> nat
    decreases ws.len(),
{
    if ws.len() == 0 {
        0
    } else {
        total_len(ws.drop_last()) + ws.last().len()
    }
}

/// Where the cursor stands after each of `ws` was written in turn, starting
/// from `offset`.
pub open spec fn cursor_after(offset: nat, capacity: nat, ws: Seq<Seq<u8>>) -> nat
    decreases ws.len(),
{
    if ws.len() == 0 {
        offset
    } else {
        placement(cursor_after(offset, capacity, ws.drop_last()), capacity, ws.last().len())
            + ws.last().len()
    }
}

/// Where the `i`-th of `ws` was placed.
pub open spec fn start_of(offset: nat, capacity: nat, ws: Seq<Seq<u8>>, i: int) -> nat {
    placement(cursor_after(offset, capacity, ws.take(i)), capacity, ws[i].len())
}

/// The region after each of `ws` was written in turn.
pub open spec fn region_after(offset: nat, capacity: nat, region: Seq<u8>, ws: Seq<Seq<u8>>) -> Seq<u8>
    decreases ws.len(),
{
    if ws.len() == 0 {
        region
    } else {
        written(
            region_after(offset, capacity, region, ws.drop_last()),
            start_of(offset, capacity, ws, ws.len() - 1),
            ws.last(),
        )
    }
}

proof fn lemma_total_len_prefix(ws: Seq<Seq<u8>>, j: int)
    requires
        0 <= j <= ws.len(),
    ensures
        total_len(ws.take(j)) <= total_len(ws),
        j < ws.len() ==> total_len(ws.take(j + 1)) == total_len(ws.take(j)) + ws[j].len(),
    decreases ws.len(),
{
    if j < ws.len() {
        assert(ws.take(j + 1).drop_last() =~= ws.take(j));
        assert(ws.take(j) =~= ws.drop_last().take(j));
        lemma_total_len_prefix(ws.drop_last(), j);
    } else {
        assert(ws.take(j) =~= ws);
    }
}

/// Bytes written one after another, without passing the end of the region
/// since the cursor stood at `offset`, each land right after the one before and
/// all stay in place: reading back at the placement a write returned gives
/// exactly the bytes it wrote.
pub proof fn law_round_trip(offset: nat, capacity: nat, region: Seq<u8>, ws: Seq<Seq<u8>>)
    requires
        region.len() == capacity,
        offset + total_len(ws) <= capacity,
    ensures
        cursor_after(offset, capacity, ws) == offset + total_len(ws),
        region_after(offset, capacity, region, ws).len() == capacity,
        forall|i: int|
            0 <= i < ws.len() ==> {
                &&& #[trigger] start_of(offset, capacity, ws, i) == offset + total_len(ws.take(i))
                &&& region_after(offset, capacity, region, ws).subrange(
                    start_of(offset, capacity, ws, i) as int,
                    (start_of(offset, capacity, ws, i) + ws[i].len()) as int,
                ) == ws[i]
            },
    decreases ws.len(),
{
    if ws.len() > 0 {
        let p = ws.drop_last();
        let n = ws.len() - 1;
        law_round_trip(offset, capacity, region, p);
        assert(ws.take(n) =~= p);
        let s = start_of(offset, capacity, ws, n);
        assert(s == offset + total_len(p));
        let prev = region_after(offset, capacity, region, p);
        let cur = region_after(offset, capacity, region, ws);
        assert(cur.subrange(s as int, (s + ws[n].len()) as int) =~= ws[n]);
        assert forall|i: int| 0 <= i < ws.len() implies {
            &&& #[trigger] start_of(offset, capacity, ws, i) == offset + total_len(ws.take(i))
            &&& cur.subrange(
                start_of(offset, capacity, ws, i) as int,
                (start_of(offset, capacity, ws, i) + ws[i].len()) as int,
            ) == ws[i]
        } by {
            if i < n {
                assert(ws.take(i) =~= p.take(i));
                assert(ws[i] == p[i]);
                let si = start_of(offset, capacity, p, i);
                assert(start_of(offset, capacity, ws, i) == si);
                lemma_total_len_prefix(p, i);
                lemma_total_len_prefix(p, i + 1);
                assert(si + p[i].len() <= s);
                assert(cur.subrange(si as int, (si + p[i].len()) as int) =~= prev.subrange(
                    si as int,
                    (si + p[i].len()) as int,
                ));
            }
        }
    }
}

/// Serialized calls. When each call writes its payload and has it read back
/// before the next call writes, every call reads exactly its own bytes, also
/// where a write started over at the beginning of the region.
pub proof fn law_serialized_calls(offset: nat, capacity: nat, region: Seq<u8>, ws: Seq<Seq<u8>>)
    requires
        region.len() == capacity,
        offset <= capacity,
        forall|i: int| 0 <= i < ws.len() ==> (#[trigger] ws[i]).len() <= capacity,
    ensures
        forall|i: int|
            0 <= i < ws.len() ==> {
                &&& #[trigger] start_of(offset, capacity, ws, i) + ws[i].len() <= capacity
                &&& written(
                    region_after(offset, capacity, region, ws.take(i)),
                    start_of(offset, capacity, ws, i),
                    ws[i],
                ).subrange(
                    start_of(offset, capacity, ws, i) as int,
                    (start_of(offset, capacity, ws, i) + ws[i].len()) as int,
                ) == ws[i]
            },
{
    assert forall|i: int| 0 <= i < ws.len() implies {
        &&& #[trigger] start_of(offset, capacity, ws, i) + ws[i].len() <= capacity
        &&& written(
            region_after(offset, capacity, region, ws.take(i)),
            start_of(offset, capacity, ws, i),
            ws[i],
        ).subrange(
            start_of(offset, capacity, ws, i) as int,
            (start_of(offset, capacity, ws, i) + ws[i].len()) as int,
        ) == ws[i]
    } by {
        assert forall|j: int| 0 <= j < ws.take(i).len() implies (#[trigger] ws.take(i)[j]).len()
            <= capacity by {
            assert(ws.take(i)[j] == ws[j]);
        }
        lemma_region_len(offset, capacity, region, ws.take(i));
        lemma_cursor_bound(offset, capacity, ws.take(i));
        let start = start_of(offset, capacity, ws, i);
        let before = region_after(offset, capacity, region, ws.take(i));
        assert(written(before, start, ws[i]).subrange(start as int, (start + ws[i].len()) as int)
            =~= ws[i]);
    }
}

proof fn lemma_cursor_bound(offset: nat, capacity: nat, ws: Seq<Seq<u8>>)
    requires
        offset <= capacity,
        forall|i: int| 0 <= i < ws.len() ==> (#[trigger] ws[i]).len() <= capacity,
    ensures
        cursor_after(offset, capacity, ws) <= capacity,
    decreases ws.len(),
{
    if ws.len() > 0 {
        assert forall|i: int| 0 <= i < ws.drop_last().len() implies (
        #[trigger] ws.drop_last()[i]).len() <= capacity by {
            assert(ws.drop_last()[i] == ws[i]);
        }
        lemma_cursor_bound(offset, capacity, ws.drop_last());
        assert(ws.last() == ws[ws.len() - 1]);
    }
}

proof fn lemma_region_len(offset: nat, capacity: nat, region: Seq<u8>, ws: Seq<Seq<u8>>)
    requires
        region.len() == capacity,
        offset <= capacity,
        forall|i: int| 0 <= i < ws.len() ==> (#[trigger] ws[i]).len() <= capacity,
    ensures
        region_after(offset, capacity, region, ws).len() == capacity,
    decreases ws.len(),
{
    if ws.len() > 0 {
        assert forall|i: int| 0 <= i < ws.drop_last().len() implies (
        #[trigger] ws.drop_last()[i]).len() <= capacity by {
            assert(ws.drop_last()[i] == ws[i]);
        }
        lemma_region_len(offset, capacity, region, ws.drop_last());
        assert(ws.take(ws.len() - 1) =~= ws.drop_last());
        lemma_cursor_bound(offset, capacity, ws.drop_last());
        assert(ws.last() == ws[ws.len() - 1]);
    }
}

/// The pair of shared regions of a node: one carries payloads from the node to
/// its worker (host to device), the other carries results back (device to
/// host). The regions' memory is mapped by the caller and lent to each call;
/// this value holds what decides where bytes go.
pub struct ShmManager {
    h2d: RingCursor,
    d2h_capacity: usize,
}

impl ShmManager {
    pub open spec fn wf(&self) -> bool {
        self.h2d_cursor().wf()
    }

    pub closed spec fn h2d_cursor(&self) -> RingCursor {
        self.h2d
    }

    pub closed spec fn d2h_capacity_spec(&self) -> nat {
        self.d2h_capacity as nat
    }

    /// Both regions of the default size, the write cursor at 0.
    pub fn new() -> (r: ShmManager)
        ensures
            r.wf(),
            r.h2d_cursor().capacity_spec() == SHM_SIZE,
            r.h2d_cursor().offset_spec() == 0,
            r.d2h_capacity_spec() == SHM_SIZE,
    {
        ShmManager::with_capacity(SHM_SIZE)
    }

    /// Both regions of `size` bytes, the write cursor at 0.
    pub fn with_capacity(size: usize) -> (r: ShmManager)
        ensures
            r.wf(),
            r.h2d_cursor().capacity_spec() == size,
            r.h2d_cursor().offset_spec() == 0,
            r.d2h_capacity_spec() == size,
    {
        ShmManager { h2d: RingCursor::new(size), d2h_capacity: size }
    }

    pub fn h2d_capacity(&self) -> (r: usize)
        ensures
            r == self.h2d_cursor().capacity_spec(),
    {
        self.h2d.capacity()
    }

    pub fn h2d_offset(&self) -> (r: usize)
        ensures
            r == self.h2d_cursor().offset_spec(),
    {
        self.h2d.offset()
    }

    pub fn d2h_capacity(&self) -> (r: usize)
        ensures
            r == self.d2h_capacity_spec(),
    {
        self.d2h_capacity
    }

    /// Copies `data` into the host-to-device region at the cursor, starting
    /// over at 0 where it would not fit before the end, and returns the
    /// placement `(offset, length)`. A payload longer than the region is
    /// refused and nothing changes.
    pub fn write_h2d(&mut self, region: &mut [u8], data: &[u8]) -> (r: Result<(usize, usize), ShmError>)
        requires
            old(self).wf(),
            old(region)@.len() == old(self).h2d_cursor().capacity_spec(),
        ensures
            final(self).wf(),
            final(self).d2h_capacity_spec() == old(self).d2h_capacity_spec(),
            final(self).h2d_cursor().capacity_spec() == old(self).h2d_cursor().capacity_spec(),
            r is Ok <==> data@.len() <= old(self).h2d_cursor().capacity_spec(),
            match r {
                Ok((start, len)) => {
                    &&& len == data@.len()
                    &&& start == placement(
                        old(self).h2d_cursor().offset_spec(),
                        old(self).h2d_cursor().capacity_spec(),
                        len as nat,
                    )
                    &&& old(self).h2d_cursor().offset_spec() + len > old(self).h2d_cursor().capacity_spec() ==> start == 0
                    &&& final(self).h2d_cursor().offset_spec() == start + len
                    &&& final(region)@ == written(old(region)@, start as nat, data@)
                },
                Err(e) => {
                    &&& e == (ShmError::PayloadTooLarge {
                        len: data@.len() as usize,
                        capacity: old(self).h2d_cursor().capacity_spec() as usize,
                    })
                    &&& *final(self) == *old(self)
                    &&& final(region)@ == old(region)@
                },
            },
    {
        let len = data.len();
        match self.h2d.claim(len) {
            Ok(start) => {
                copy_into(region, start, data);
                Ok((start, len))
            },
            Err(e) => Err(e),
        }
    }

    /// Copies the `len` bytes at `offset` out of the device-to-host region; a
    /// span outside the region is refused.
    pub fn read_d2h(&self, region: &[u8], offset: usize, len: usize) -> (r: Result<Vec<u8>, ShmError>)
        requires
            region@.len() == self.d2h_capacity_spec(),
        ensures
            r is Ok <==> span_fits(offset as nat, len as nat, self.d2h_capacity_spec()),
            match r {
                Ok(bytes) => bytes@ == region@.subrange(offset as int, offset + len),
                Err(e) => e == (ShmError::OutOfBounds {
                    offset,
                    len,
                    capacity: self.d2h_capacity_spec() as usize,
                }),
            },
    {
        read_span(region, offset, len)
    }
}

} // verus!
