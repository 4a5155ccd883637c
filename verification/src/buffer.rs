//! The buffer bridge: conversion between byte sequences and the flat,
//! boundary-safe representation used at every crossing into the native
//! engine.
//!
//! A single buffer crosses the boundary as an address and a length, where the
//! empty sequence must be the null address with length zero — never a
//! dangling non-null address.  An ordered sequence of buffers crosses as one
//! flattened byte region plus a parallel array of lengths; reconstruction
//! slices the flat region at running offsets derived from the lengths.
//! `CMem` and `CMems` model those two shapes with their invariants, and the
//! round-trip laws say that decoding an encoding gives back exactly what was
//! encoded.

use vstd::prelude::*;

verus! {

/// The boundary image of a single buffer: an address that is either null or
/// refers to `bytes`.
#[verifier::ext_equal]
pub ghost struct BoundaryBuf {
    /// Whether the address is null.
    pub null: bool,
    /// The bytes the address refers to; empty when it is null.
    pub bytes: Seq<u8>,
}

/// The boundary encoding of a byte sequence: the empty sequence becomes the
/// null address, anything else is carried as is.
pub open spec fn to_boundary(b: Seq<u8>) -> BoundaryBuf {
    BoundaryBuf { null: b.len() == 0, bytes: b }
}

/// The byte sequence a boundary buffer denotes: a null address denotes the
/// empty sequence.
pub open spec fn from_boundary(e: BoundaryBuf) -> Seq<u8> {
    if e.null {
        Seq::empty()
    } else {
        e.bytes
    }
}

/// Law: decoding the boundary encoding of any byte sequence yields that
/// sequence again, and a sequence is encoded as null exactly when it is
/// empty.
pub proof fn lemma_buffer_round_trip(b: Seq<u8>)
    ensures
        from_boundary(to_boundary(b)) == b,
        to_boundary(b).null <==> b.len() == 0,
        to_boundary(b).null ==> to_boundary(b).bytes.len() == 0,
{
    if b.len() == 0 {
        assert(from_boundary(to_boundary(b)) =~= b);
    }
}

/// Largest byte count a boundary length field can carry.
pub const MAX_BOUNDARY_LEN: usize = 0x7fff_ffff;

/// A single buffer in boundary form: the data either absent (the null
/// address) or present, with the length field the boundary declares.
pub struct CMem {
    data: Option<Vec<u8>>,
    size: i32,
}

impl CMem {
    /// The boundary contract of a single buffer: the length field matches the
    /// data, and emptiness is represented by the null address only.
    pub closed spec fn wf(self) -> bool {
        match self.data {
            Option::None => self.size == 0,
            Option::Some(v) => v@.len() == self.size && v@.len() > 0,
        }
    }

    /// The byte sequence this buffer carries.
    pub closed spec fn view(self) -> Seq<u8> {
        match self.data {
            Option::None => Seq::empty(),
            Option::Some(v) => v@,
        }
    }

    /// Whether this buffer is the null encoding.
    pub closed spec fn is_null_spec(self) -> bool {
        self.data is None
    }

    /// The boundary image of this buffer.
    pub open spec fn boundary(self) -> BoundaryBuf {
        BoundaryBuf { null: self.is_null_spec(), bytes: self.view() }
    }

    /// Encodes a byte sequence for the boundary.  The empty sequence becomes
    /// the null encoding; anything else is copied into the buffer.
    pub fn new(data: &[u8]) -> (r: CMem)
        requires
            data@.len() <= MAX_BOUNDARY_LEN,
        ensures
            r.wf(),
            r.boundary() == to_boundary(data@),
    {
        if data.len() == 0 {
            let r = CMem { data: None, size: 0 };
            proof {
                assert(r.boundary() =~= to_boundary(data@));
            }
            r
        } else {
            let owned = vstd::slice::slice_to_vec(data);
            let size = owned.len() as i32;
            let r = CMem { data: Some(owned), size };
            proof {
                assert(r.boundary() =~= to_boundary(data@));
            }
            r
        }
    }

    /// Decodes this buffer back into a freshly owned byte sequence.  The null
    /// encoding decodes to the empty sequence; anything else is copied out,
    /// never aliased, since the boundary memory can be freed independently.
    pub fn to_bytes(&self) -> (r: Vec<u8>)
        requires
            self.wf(),
        ensures
            r@ == from_boundary(self.boundary()),
            r@ == self@,
    {
        match &self.data {
            None => Vec::new(),
            Some(v) => {
                let copy = vstd::slice::slice_to_vec(v.as_slice());
                copy
            },
        }
    }

    /// Whether this buffer is the null encoding.
    pub fn is_null(&self) -> (r: bool)
        ensures
            r == self.is_null_spec(),
    {
        self.data.is_none()
    }

    /// The value of the boundary length field.
    pub fn size(&self) -> (r: i32)
        requires
            self.wf(),
        ensures
            r == self@.len(),
    {
        self.size
    }
}

/// Takes ownership of a boundary buffer and yields the byte sequence it
/// carries, as `CMem::to_bytes` does.
pub fn cmem_get(cmem: CMem) -> (r: Vec<u8>)
    requires
        cmem.wf(),
    ensures
        r@ == cmem@,
{
    cmem.to_bytes()
}

/// The concatenation of an ordered sequence of byte sequences.
pub open spec fn flatten_bytes(s: Seq<Seq<u8>>) -> Seq<u8>
    decreases s.len(),
{
    if s.len() == 0 {
        Seq::empty()
    } else {
        s.first() + flatten_bytes(s.drop_first())
    }
}

/// The lengths of an ordered sequence of byte sequences, in order.
pub open spec fn lens_of(s: Seq<Seq<u8>>) -> Seq<int> {
    Seq::new(s.len(), |i: int| s[i].len() as int)
}

/// The sum of a sequence of lengths.
pub open spec fn total_len(sizes: Seq<int>) -> int
    decreases sizes.len(),
{
    if sizes.len() == 0 {
        0
    } else {
        sizes.first() + total_len(sizes.drop_first())
    }
}

/// Whether every length is non-negative.
pub open spec fn sizes_ok(sizes: Seq<int>) -> bool {
    forall|i: int| 0 <= i < sizes.len() ==> sizes[i] >= 0
}

/// Reconstruction of sequence boundaries: slices `flat` at the running
/// offsets the lengths dictate.
pub open spec fn split_by_sizes(flat: Seq<u8>, sizes: Seq<int>) -> Seq<Seq<u8>>
    decreases sizes.len(),
{
    if sizes.len() == 0 {
        Seq::empty()
    } else {
        seq![flat.take(sizes.first())] + split_by_sizes(
            flat.skip(sizes.first()),
            sizes.drop_first(),
        )
    }
}

/// Appending one more sequence extends the flattening at the end.
pub proof fn lemma_flatten_push(s: Seq<Seq<u8>>, x: Seq<u8>)
    ensures
        flatten_bytes(s.push(x)) == flatten_bytes(s) + x,
    decreases s.len(),
{
    assert(s.push(x).first() == s.push(x)[0]);
    if s.len() == 0 {
        assert(s.push(x).first() == x);
        assert(s.push(x).drop_first() =~= Seq::<Seq<u8>>::empty());
        assert(flatten_bytes(s.push(x)) == x + flatten_bytes(Seq::<Seq<u8>>::empty()));
        assert(flatten_bytes(s.push(x)) =~= flatten_bytes(s) + x);
    } else {
        assert(s.push(x).first() == s.first());
        assert(s.push(x).drop_first() =~= s.drop_first().push(x));
        lemma_flatten_push(s.drop_first(), x);
        assert(flatten_bytes(s.push(x)) == s.first() + (flatten_bytes(s.drop_first()) + x));
        assert(flatten_bytes(s.push(x)) =~= flatten_bytes(s) + x);
    }
}

/// The flattening is as long as the lengths say.
pub proof fn lemma_flatten_len(s: Seq<Seq<u8>>)
    ensures
        flatten_bytes(s).len() == total_len(lens_of(s)),
    decreases s.len(),
{
    if s.len() > 0 {
        lemma_flatten_len(s.drop_first());
        assert(lens_of(s).drop_first() =~= lens_of(s.drop_first()));
    }
}

/// Law: reconstructing the flattened region with the recorded lengths yields
/// the original sequence of buffers, boundaries and order preserved.
pub proof fn lemma_buffer_set_round_trip(s: Seq<Seq<u8>>)
    ensures
        split_by_sizes(flatten_bytes(s), lens_of(s)) == s,
    decreases s.len(),
{
    if s.len() == 0 {
        assert(split_by_sizes(flatten_bytes(s), lens_of(s)) =~= s);
    } else {
        let flat = flatten_bytes(s);
        let sizes = lens_of(s);
        let head = s.first();
        let rest = s.drop_first();
        assert(flat == head + flatten_bytes(rest));
        assert(flat.take(head.len() as int) =~= head);
        assert(flat.skip(head.len() as int) =~= flatten_bytes(rest));
        assert(sizes.drop_first() =~= lens_of(rest));
        lemma_buffer_set_round_trip(rest);
        assert(split_by_sizes(flat, sizes) =~= s);
    }
}

/// Each reconstructed element is the slice of the flat region between the
/// running offset of the lengths before it and that offset plus its length.
pub proof fn lemma_split_index(flat: Seq<u8>, sizes: Seq<int>, i: int)
    requires
        sizes_ok(sizes),
        total_len(sizes) <= flat.len(),
        0 <= i < sizes.len(),
    ensures
        split_by_sizes(flat, sizes).len() == sizes.len(),
        split_by_sizes(flat, sizes)[i] == flat.subrange(
            total_len(sizes.take(i)),
            total_len(sizes.take(i)) + sizes[i],
        ),
    decreases i,
{
    lemma_split_len(flat, sizes);
    lemma_take_total_le(sizes, i + 1);
    lemma_total_len_push(sizes.take(i), sizes[i]);
    assert(sizes.take(i + 1) =~= sizes.take(i).push(sizes[i]));
    lemma_total_len_nonneg(sizes.take(i));
    assert(total_len(sizes.take(i)) + sizes[i] <= flat.len());
    if i == 0 {
        assert(sizes.take(0) =~= Seq::<int>::empty());
        assert(split_by_sizes(flat, sizes)[0] == flat.take(sizes.first()));
        assert(flat.take(sizes.first()) =~= flat.subrange(0, sizes[0]));
    } else {
        let flat2 = flat.skip(sizes.first());
        let sizes2 = sizes.drop_first();
        assert(sizes_ok(sizes2));
        assert(total_len(sizes) == sizes[0] + total_len(sizes2));
        lemma_total_len_nonneg(sizes2);
        lemma_split_index(flat2, sizes2, i - 1);
        assert(split_by_sizes(flat, sizes)[i] == split_by_sizes(flat2, sizes2)[i - 1]);
        assert(sizes2.take(i - 1) =~= sizes.take(i).drop_first());
        lemma_total_len_nonneg(sizes2.take(i - 1));
        assert(total_len(sizes.take(i)) == sizes[0] + total_len(sizes2.take(i - 1)));
        let off2 = total_len(sizes2.take(i - 1));
        let off = total_len(sizes.take(i));
        assert(off2 + sizes2[i - 1] <= flat2.len());
        assert forall|k: int| 0 <= k < sizes[i] implies #[trigger] flat2.subrange(
            off2,
            off2 + sizes2[i - 1],
        )[k] == flat.subrange(off, off + sizes[i])[k] by {
            assert(flat2[off2 + k] == flat[off + k]);
        }
        assert(flat2.subrange(off2, off2 + sizes2[i - 1]) =~= flat.subrange(off, off + sizes[i]));
    }
}

/// The reconstruction has one element per recorded length.
pub proof fn lemma_split_len(flat: Seq<u8>, sizes: Seq<int>)
    ensures
        split_by_sizes(flat, sizes).len() == sizes.len(),
    decreases sizes.len(),
{
    if sizes.len() > 0 {
        lemma_split_len(flat.skip(sizes.first()), sizes.drop_first());
    }
}

/// A sum of non-negative lengths is non-negative.
pub proof fn lemma_total_len_nonneg(sizes: Seq<int>)
    requires
        sizes_ok(sizes),
    ensures
        total_len(sizes) >= 0,
    decreases sizes.len(),
{
    if sizes.len() > 0 {
        assert(sizes_ok(sizes.drop_first()));
        lemma_total_len_nonneg(sizes.drop_first());
    }
}

/// Appending one more length extends the sum.
pub proof fn lemma_total_len_push(sizes: Seq<int>, x: int)
    ensures
        total_len(sizes.push(x)) == total_len(sizes) + x,
    decreases sizes.len(),
{
    assert(sizes.push(x).first() == sizes.push(x)[0]);
    if sizes.len() == 0 {
        assert(sizes.push(x).first() == x);
        assert(sizes.push(x).drop_first() =~= Seq::<int>::empty());
        assert(total_len(sizes.push(x)) == x + total_len(Seq::<int>::empty()));
    } else {
        assert(sizes.push(x).first() == sizes.first());
        assert(sizes.push(x).drop_first() =~= sizes.drop_first().push(x));
        lemma_total_len_push(sizes.drop_first(), x);
        assert(total_len(sizes.push(x)) == sizes.first() + (total_len(sizes.drop_first()) + x));
    }
}

/// An ordered sequence of buffers in boundary form: a count, a parallel
/// array of lengths, and the flattened byte region.
pub struct CMems {
    count: i32,
    sizes: Vec<i32>,
    data: Vec<u8>,
}

/// The lengths array as mathematical integers.
pub open spec fn sizes_int(sizes: Seq<i32>) -> Seq<int> {
    Seq::new(sizes.len(), |i: int| sizes[i] as int)
}

impl CMems {
    /// The boundary contract of a buffer set: the count matches the fill
    /// level of the lengths array, every length is non-negative, and the
    /// lengths sum to the size of the flat region.  Anything else is a broken
    /// native contract, which callers must not present.
    pub closed spec fn wf(self) -> bool {
        &&& self.count >= 0
        &&& self.sizes@.len() == self.count
        &&& sizes_ok(sizes_int(self.sizes@))
        &&& total_len(sizes_int(self.sizes@)) == self.data@.len()
    }

    /// The ordered sequence of byte sequences this set carries.
    pub closed spec fn view(self) -> Seq<Seq<u8>> {
        split_by_sizes(self.data@, sizes_int(self.sizes@))
    }

    /// The declared element count.
    pub closed spec fn count_spec(self) -> int {
        self.count as int
    }

    /// Encodes an ordered sequence of buffers: records each length and
    /// appends each buffer to the flat region, preserving order.
    pub fn new(data: &[Vec<u8>]) -> (r: CMems)
        requires
            data@.len() <= MAX_BOUNDARY_LEN,
            forall|i: int| 0 <= i < data@.len() ==> data@[i]@.len() <= MAX_BOUNDARY_LEN,
        ensures
            r.wf(),
            r@ == data.deep_view(),
            r.count_spec() == data@.len(),
    {
        let count = data.len();
        let mut sizes: Vec<i32> = Vec::new();
        let mut flat: Vec<u8> = Vec::new();
        let mut i: usize = 0;
        while i < count
            invariant
                count == data@.len() <= MAX_BOUNDARY_LEN,
                forall|j: int| 0 <= j < data@.len() ==> data@[j]@.len() <= MAX_BOUNDARY_LEN,
                i <= count,
                sizes@.len() == i,
                sizes_int(sizes@) =~= lens_of(data.deep_view().take(i as int)),
                flat@ == flatten_bytes(data.deep_view().take(i as int)),
            decreases count - i,
        {
            let item: &Vec<u8> = &data[i];
            proof {
                assert(data.deep_view()[i as int] =~= item@);
            }
            let ghost sizes0 = sizes@;
            sizes.push(item.len() as i32);
            flat.extend_from_slice(item.as_slice());
            proof {
                let dv = data.deep_view();
                assert(dv.take(i + 1) =~= dv.take(i as int).push(dv[i as int]));
                lemma_flatten_push(dv.take(i as int), dv[i as int]);
                assert(flat@ =~= flatten_bytes(dv.take(i + 1)));
                assert forall|j: int| 0 <= j <= i implies sizes_int(sizes@)[j] == lens_of(
                    dv.take(i + 1),
                )[j] by {
                    if j < i {
                        assert(sizes@[j] == sizes0[j]);
                        assert(sizes_int(sizes0)[j] == lens_of(dv.take(i as int))[j]);
                    }
                }
                assert(sizes_int(sizes@) =~= lens_of(dv.take(i + 1)));
            }
            i += 1;
        }
        proof {
            let dv = data.deep_view();
            assert(dv.take(count as int) =~= dv);
            lemma_flatten_len(dv);
            lemma_buffer_set_round_trip(dv);
        }
        CMems { count: count as i32, sizes, data: flat }
    }

    /// Decodes the set back into freshly owned byte sequences by slicing the
    /// flat region at the running offsets the lengths dictate.
    pub fn to_vec(&self) -> (r: Vec<Vec<u8>>)
        requires
            self.wf(),
        ensures
            r.deep_view() == self@,
            r@.len() == self.count_spec(),
    {
        let mut out: Vec<Vec<u8>> = Vec::new();
        let mut offset: usize = 0;
        let mut i: usize = 0;
        let n = self.sizes.len();
        proof {
            assert(sizes_int(self.sizes@).take(0) =~= Seq::<int>::empty());
            lemma_split_len(self.data@, sizes_int(self.sizes@));
        }
        while i < n
            invariant
                self.wf(),
                n == self.sizes@.len(),
                i <= n,
                out.deep_view() =~= self@.take(i as int),
                offset == total_len(sizes_int(self.sizes@).take(i as int)),
                offset <= self.data@.len(),
            decreases n - i,
        {
            proof {
                let sz = sizes_int(self.sizes@);
                assert(sz[i as int] >= 0);
            }
            let size = self.sizes[i] as usize;
            proof {
                let sz = sizes_int(self.sizes@);
                lemma_split_index(self.data@, sz, i as int);
                lemma_total_len_push(sz.take(i as int), sz[i as int]);
                assert(sz.take(i + 1) =~= sz.take(i as int).push(sz[i as int]));
                lemma_take_total_le(sz, i + 1);
                assert(offset + size == total_len(sz.take(i + 1)));
                assert(offset + size <= self.data@.len());
            }
            let ghost out0 = out@;
            let dlen = self.data.len();
            proof {
                assert(offset + size <= dlen);
            }
            let piece = vstd::slice::slice_subrange(self.data.as_slice(), offset, offset + size);
            out.push(vstd::slice::slice_to_vec(piece));
            proof {
                assert(self@.take(i + 1) =~= self@.take(i as int).push(self@[i as int]));
                assert forall|j: int| 0 <= j <= i implies out.deep_view()[j] == self@.take(i + 1)[j] by {
                    if j < i {
                        assert(out@[j] == out0[j]);
                        assert(Seq::new(out0.len(), |k: int| out0[k].deep_view())[j] == self@.take(
                            i as int,
                        )[j]);
                    } else {
                        assert(out@[j].deep_view() =~= piece@);
                    }
                }
                assert(out.deep_view() =~= self@.take(i + 1));
            }
            offset += size;
            i += 1;
        }
        proof {
            assert(self@.take(n as int) =~= self@);
        }
        out
    }

    /// The declared element count.
    pub fn count(&self) -> (r: i32)
        requires
            self.wf(),
        ensures
            r == self.count_spec(),
            r == self@.len(),
    {
        proof {
            lemma_split_len(self.data@, sizes_int(self.sizes@));
        }
        self.count
    }
}

/// A prefix of the lengths never sums past the whole.
pub proof fn lemma_take_total_le(sizes: Seq<int>, i: int)
    requires
        sizes_ok(sizes),
        0 <= i <= sizes.len(),
    ensures
        total_len(sizes.take(i)) <= total_len(sizes),
    decreases sizes.len() - i,
{
    if i == sizes.len() {
        assert(sizes.take(i) =~= sizes);
    } else {
        lemma_total_len_push(sizes.take(i), sizes[i]);
        assert(sizes.take(i + 1) =~= sizes.take(i).push(sizes[i]));
        lemma_take_total_le(sizes, i + 1);
    }
}

/// Copies a sequence of buffers into freshly owned ones, preserving content
/// and order.
pub fn copy_bufs(bufs: &[Vec<u8>]) -> (r: Vec<Vec<u8>>)
    ensures
        r.deep_view() == bufs.deep_view(),
        r@.len() == bufs@.len(),
{
    let mut out: Vec<Vec<u8>> = Vec::new();
    let mut i: usize = 0;
    let n = bufs.len();
    while i < n
        invariant
            n == bufs@.len(),
            i <= n,
            out.deep_view() =~= bufs.deep_view().take(i as int),
        decreases n - i,
    {
        let item: &Vec<u8> = &bufs[i];
        proof {
            assert(bufs.deep_view()[i as int] =~= item@);
        }
        let ghost out0 = out@;
        out.push(vstd::slice::slice_to_vec(item.as_slice()));
        proof {
            let dv = bufs.deep_view();
            assert(dv.take(i + 1) =~= dv.take(i as int).push(dv[i as int]));
            assert forall|j: int| 0 <= j <= i implies out.deep_view()[j] == dv.take(i + 1)[j] by {
                if j < i {
                    assert(out@[j] == out0[j]);
                    assert(Seq::new(out0.len(), |k: int| out0[k].deep_view())[j] == dv.take(
                        i as int,
                    )[j]);
                } else {
                    assert(out@[j].deep_view() =~= item@);
                }
            }
            assert(out.deep_view() =~= dv.take(i + 1));
        }
        i += 1;
    }
    proof {
        assert(bufs.deep_view().take(n as int) =~= bufs.deep_view());
    }
    out
}

/// Whether two byte sequences hold the same bytes.
pub fn bytes_eq(a: &[u8], b: &[u8]) -> (r: bool)
    ensures
        r == (a@ == b@),
{
    if a.len() != b.len() {
        return false;
    }
    let n = a.len();
    let mut i: usize = 0;
    while i < n
        invariant
            n == a@.len() == b@.len(),
            i <= n,
            forall|j: int| 0 <= j < i ==> a@[j] == b@[j],
        decreases n - i,
    {
        if a[i] != b[i] {
            return false;
        }
        i += 1;
    }
    proof {
        assert(a@ =~= b@);
    }
    true
}

/// Whether two sequences of buffers hold the same buffers in the same
/// order.
pub fn bufs_eq(a: &[Vec<u8>], b: &[Vec<u8>]) -> (r: bool)
    ensures
        r == (a.deep_view() == b.deep_view()),
{
    if a.len() != b.len() {
        proof {
            assert(a.deep_view().len() != b.deep_view().len());
        }
        return false;
    }
    let n = a.len();
    let mut i: usize = 0;
    while i < n
        invariant
            n == a@.len() == b@.len(),
            i <= n,
            forall|j: int| 0 <= j < i ==> a.deep_view()[j] == b.deep_view()[j],
        decreases n - i,
    {
        if !bytes_eq(a[i].as_slice(), b[i].as_slice()) {
            proof {
                assert(a.deep_view()[i as int] == a@[i as int]@);
                assert(b.deep_view()[i as int] == b@[i as int]@);
            }
            return false;
        }
        proof {
            assert(a.deep_view()[i as int] == a@[i as int]@);
            assert(b.deep_view()[i as int] == b@[i as int]@);
        }
        i += 1;
    }
    proof {
        assert(a.deep_view() =~= b.deep_view());
    }
    true
}

} // verus!
