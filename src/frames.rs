//! Frame records and their grouping into shader blocks.
//!
//! Frames are taken in ascending frame number (frames with equal numbers keep
//! their storage order) and cut into batches of a fixed size; each batch
//! becomes one block whose payloads are the frames' payloads laid end to end.
//! Samples are of any copyable type.
use crate::decode::{keep_parsed, kept};
use vstd::prelude::*;

verus! {

/// What a frame record holds.
pub struct FrameModel<T> {
    pub frame_number: u32,
    pub vertex: Seq<T>,
    pub material: Seq<T>,
}

/// What a shader block holds.
pub struct BlockModel<T> {
    pub vertex: Seq<T>,
    pub material: Seq<T>,
}

/// One decoded storage row.
pub struct FrameData<T> {
    pub frame_number: u32,
    pub vertex_data: Vec<T>,
    pub material_data: Vec<T>,
}

/// The frame records of one read, in storage order.
pub struct VideoMetrics<T> {
    pub frame_data: Vec<FrameData<T>>,
}

/// One upload unit: a vertex payload and a material payload, which need not
/// be of the same length.
pub struct ShaderBlock<T> {
    pub vertex_data: Vec<T>,
    pub material_data: Vec<T>,
}

/// Shader blocks in the order in which they are uploaded.
pub struct PartitionedData<T> {
    pub blocks: Vec<ShaderBlock<T>>,
}

impl<T> View for FrameData<T> {
    type V = FrameModel<T>;

    open spec fn view(&self) -> FrameModel<T> {
        FrameModel {
            frame_number: self.frame_number,
            vertex: self.vertex_data@,
            material: self.material_data@,
        }
    }
}

impl<T> View for VideoMetrics<T> {
    type V = Seq<FrameModel<T>>;

    open spec fn view(&self) -> Seq<FrameModel<T>> {
        self.frame_data@.map_values(|f: FrameData<T>| f@)
    }
}

impl<T> View for ShaderBlock<T> {
    type V = BlockModel<T>;

    open spec fn view(&self) -> BlockModel<T> {
        BlockModel { vertex: self.vertex_data@, material: self.material_data@ }
    }
}

impl<T> View for PartitionedData<T> {
    type V = Seq<BlockModel<T>>;

    open spec fn view(&self) -> Seq<BlockModel<T>> {
        self.blocks@.map_values(|b: ShaderBlock<T>| b@)
    }
}

impl<T: Copy> FrameData<T> {
    /// The record of frame `frame_number` whose payload fields parsed to
    /// `vertex` and `material`; fields that failed to parse are dropped.
    pub fn from_parsed(frame_number: u32, vertex: &Vec<Option<T>>, material: &Vec<Option<T>>) -> (r:
        FrameData<T>)
        ensures
            r@ == (FrameModel {
                frame_number,
                vertex: kept(vertex@),
                material: kept(material@),
            }),
    {
        FrameData {
            frame_number,
            vertex_data: keep_parsed(vertex),
            material_data: keep_parsed(material),
        }
    }
}

/// `o` with frame index `j` placed after every entry whose frame number is not
/// greater than that of frame `j`, scanning from the front.
pub open spec fn insert_index<T>(f: Seq<FrameModel<T>>, o: Seq<int>, j: int) -> Seq<int>
    decreases o.len(),
{
    if o.len() == 0 {
        seq![j]
    } else if f[o[0]].frame_number > f[j].frame_number {
        seq![j] + o
    } else {
        seq![o[0]] + insert_index(f, o.drop_first(), j)
    }
}

/// The indices of the first `n` frames, ordered by frame number; frames with
/// equal numbers keep their relative order.
pub open spec fn frame_order<T>(f: Seq<FrameModel<T>>, n: int) -> Seq<int>
    decreases n,
{
    if n <= 0 {
        Seq::empty()
    } else {
        insert_index(f, frame_order(f, n - 1), n - 1)
    }
}

/// The vertex (or material) payloads of the frames at positions `lo..hi` of
/// the order `o`, laid end to end.
pub open spec fn gather<T>(f: Seq<FrameModel<T>>, o: Seq<int>, lo: int, hi: int, vertex: bool) -> Seq<T>
    decreases hi - lo,
{
    if hi <= lo {
        Seq::empty()
    } else {
        gather(f, o, lo, hi - 1, vertex) + if vertex {
            f[o[hi - 1]].vertex
        } else {
            f[o[hi - 1]].material
        }
    }
}

/// The number of batches of size `k` that `n` frames make.
pub open spec fn batches(n: int, k: int) -> nat
    decreases n,
{
    if n <= 0 || k <= 0 {
        0
    } else if n <= k {
        1
    } else {
        1 + batches(n - k, k)
    }
}

/// Where batch `b` of size `k` ends among `n` frames.
pub open spec fn batch_end(b: int, k: int, n: int) -> int {
    if b * k + k < n {
        b * k + k
    } else {
        n
    }
}

/// The blocks that frames `f` make in batches of `k`.
pub open spec fn partitioned<T>(f: Seq<FrameModel<T>>, k: int) -> Seq<BlockModel<T>> {
    let n = f.len() as int;
    let o = frame_order(f, n);
    Seq::new(
        batches(n, k),
        |b: int|
            BlockModel {
                vertex: gather(f, o, b * k, batch_end(b, k, n), true),
                material: gather(f, o, b * k, batch_end(b, k, n), false),
            },
    )
}

proof fn lemma_insert_index<T>(f: Seq<FrameModel<T>>, o: Seq<int>, j: int, p: int)
    requires
        0 <= p <= o.len(),
        forall|k: int| 0 <= k < p ==> f[#[trigger] o[k]].frame_number <= f[j].frame_number,
        p == o.len() || f[o[p]].frame_number > f[j].frame_number,
    ensures
        insert_index(f, o, j) == o.insert(p, j),
    decreases p,
{
    if p == 0 {
        if o.len() == 0 {
            assert(o.insert(0, j) =~= seq![j]);
        } else {
            assert(o.insert(0, j) =~= seq![j] + o);
        }
    } else {
        let t = o.drop_first();
        assert(f[o[0]].frame_number <= f[j].frame_number);
        assert forall|k: int| 0 <= k < p - 1 implies f[#[trigger] t[k]].frame_number
            <= f[j].frame_number by {
            assert(t[k] == o[k + 1]);
        }
        if p < o.len() {
            assert(t[p - 1] == o[p]);
        }
        lemma_insert_index(f, t, j, p - 1);
        assert(o.insert(p, j) =~= seq![o[0]] + t.insert(p - 1, j));
    }
}

/// The indices of `frames` in ascending frame number, equal numbers in
/// storage order.
fn sort_frames<T>(frames: &Vec<FrameData<T>>) -> (r: Vec<usize>)
    ensures
        r@.len() == frames.len(),
        r@.len() == frame_order(frames@.map_values(|f: FrameData<T>| f@), frames.len() as int).len(),
        forall|k: int|
            0 <= k < r@.len() ==> (#[trigger] r@[k]) < frames.len() && r@[k] as int == frame_order(
                frames@.map_values(|f: FrameData<T>| f@),
                frames.len() as int,
            )[k],
{
    let ghost fm = frames@.map_values(|f: FrameData<T>| f@);
    let mut r: Vec<usize> = Vec::new();
    let mut j: usize = 0;
    while j < frames.len()
        invariant
            j <= frames.len(),
            fm == frames@.map_values(|f: FrameData<T>| f@),
            r@.len() == j,
            r@.len() == frame_order(fm, j as int).len(),
            forall|k: int|
                0 <= k < r@.len() ==> (#[trigger] r@[k]) < j && r@[k] as int == frame_order(
                    fm,
                    j as int,
                )[k],
        decreases frames.len() - j,
    {
        let ghost o = frame_order(fm, j as int);
        let key = frames[j].frame_number;
        let mut p: usize = 0;
        while p < r.len() && frames[r[p]].frame_number <= key
            invariant
                j < frames.len(),
                key == fm[j as int].frame_number,
                fm == frames@.map_values(|f: FrameData<T>| f@),
                o == frame_order(fm, j as int),
                p <= r@.len() == o.len(),
                forall|k: int| 0 <= k < r@.len() ==> (#[trigger] r@[k]) < j && r@[k] as int == o[k],
                forall|k: int| 0 <= k < p ==> fm[#[trigger] o[k]].frame_number <= key,
            decreases r.len() - p,
        {
            p = p + 1;
        }
        proof {
            lemma_insert_index(fm, o, j as int, p as int);
            r@.insert_ensures(p as int, j);
            o.insert_ensures(p as int, j as int);
        }
        r.insert(p, j);
        j = j + 1;
    }
    r
}

/// The vertex (or material) payloads of the frames at positions `lo..hi` of
/// `order`, laid end to end.
fn gather_range<T: Copy>(
    frames: &Vec<FrameData<T>>,
    order: &Vec<usize>,
    lo: usize,
    hi: usize,
    vertex: bool,
) -> (r: Vec<T>)
    requires
        lo <= hi <= order.len(),
        forall|k: int| 0 <= k < order@.len() ==> (#[trigger] order@[k]) < frames.len(),
    ensures
        r@ == gather(
            frames@.map_values(|f: FrameData<T>| f@),
            order@.map_values(|i: usize| i as int),
            lo as int,
            hi as int,
            vertex,
        ),
{
    let ghost fm = frames@.map_values(|f: FrameData<T>| f@);
    let ghost o = order@.map_values(|i: usize| i as int);
    let mut r: Vec<T> = Vec::new();
    let mut i: usize = lo;
    while i < hi
        invariant
            lo <= i <= hi <= order.len(),
            forall|k: int| 0 <= k < order@.len() ==> (#[trigger] order@[k]) < frames.len(),
            fm == frames@.map_values(|f: FrameData<T>| f@),
            o == order@.map_values(|i: usize| i as int),
            r@ == gather(fm, o, lo as int, i as int, vertex),
        decreases hi - i,
    {
        let src: &Vec<T> = if vertex {
            &frames[order[i]].vertex_data
        } else {
            &frames[order[i]].material_data
        };
        assert(src@ == if vertex {
            fm[o[i as int]].vertex
        } else {
            fm[o[i as int]].material
        });
        let ghost base = r@;
        let mut s: usize = 0;
        while s < src.len()
            invariant
                s <= src.len(),
                r@ == base + src@.take(s as int),
            decreases src.len() - s,
        {
            r.push(src[s]);
            s = s + 1;
            assert(r@ =~= base + src@.take(s as int));
        }
        assert(src@.take(s as int) == src@);
        i = i + 1;
    }
    r
}

/// Groups frames into blocks of `batch_size` frames, taken in ascending
/// frame number; the last block may hold fewer.
pub fn partition<T: Copy>(metrics: &VideoMetrics<T>, batch_size: usize) -> (r: PartitionedData<T>)
    requires
        batch_size > 0,
    ensures
        r@ == partitioned(metrics@, batch_size as int),
{
    let frames = &metrics.frame_data;
    let n = frames.len();
    let k = batch_size;
    let ghost fm = metrics@;
    let order = sort_frames(frames);
    let ghost o = order@.map_values(|i: usize| i as int);
    proof {
        assert(o =~= frame_order(fm, n as int));
    }
    let ghost whole = partitioned(fm, k as int);
    let mut blocks: Vec<ShaderBlock<T>> = Vec::new();
    let mut lo: usize = 0;
    let ghost mut b: int = 0;
    while lo < n
        invariant
            n == frames.len() == order.len(),
            fm == metrics@,
            frames == metrics.frame_data,
            o == order@.map_values(|i: usize| i as int),
            o == frame_order(fm, n as int),
            forall|j: int| 0 <= j < order@.len() ==> (#[trigger] order@[j]) < frames.len(),
            whole == partitioned(fm, k as int),
            k == batch_size > 0,
            0 <= b,
            lo <= n,
            lo < n ==> lo == b * k,
            b + batches(n - lo, k as int) == batches(n as int, k as int),
            blocks@.len() == b,
            forall|c: int| 0 <= c < b ==> (#[trigger] blocks@[c])@ == whole[c],
        decreases n - lo,
    {
        let hi: usize = if n - lo > k {
            lo + k
        } else {
            n
        };
        assert(hi == batch_end(b, k as int, n as int));
        let vertex_data = gather_range(frames, &order, lo, hi, true);
        let material_data = gather_range(frames, &order, lo, hi, false);
        blocks.push(ShaderBlock { vertex_data, material_data });
        assert(batches(n - lo, k as int) == 1 + batches(n - hi, k as int));
        assert((b + 1) * k == b * k + k) by (nonlinear_arith);
        lo = hi;
        proof {
            b = b + 1;
        }
    }
    let r = PartitionedData { blocks };
    assert(r@ =~= whole);
    r
}

/// The vertex (or material) payloads of blocks `bs`, laid end to end.
pub open spec fn joined<T>(bs: Seq<BlockModel<T>>, vertex: bool) -> Seq<T>
    decreases bs.len(),
{
    if bs.len() == 0 {
        Seq::empty()
    } else {
        joined(bs.drop_last(), vertex) + if vertex {
            bs.last().vertex
        } else {
            bs.last().material
        }
    }
}

proof fn lemma_gather_split<T>(f: Seq<FrameModel<T>>, o: Seq<int>, lo: int, mid: int, hi: int, vertex: bool)
    requires
        lo <= mid <= hi,
    ensures
        gather(f, o, lo, mid, vertex) + gather(f, o, mid, hi, vertex) == gather(f, o, lo, hi, vertex),
    decreases hi - mid,
{
    if hi == mid {
        assert(gather(f, o, mid, hi, vertex) == Seq::<T>::empty());
        assert(gather(f, o, lo, mid, vertex) + Seq::<T>::empty() == gather(f, o, lo, mid, vertex));
    } else {
        lemma_gather_split(f, o, lo, mid, hi - 1, vertex);
        let last = if vertex {
            f[o[hi - 1]].vertex
        } else {
            f[o[hi - 1]].material
        };
        assert(gather(f, o, lo, mid, vertex) + (gather(f, o, mid, hi - 1, vertex) + last) == (gather(
            f,
            o,
            lo,
            mid,
            vertex,
        ) + gather(f, o, mid, hi - 1, vertex)) + last);
    }
}

proof fn lemma_batches(n: int, k: int, b: int)
    requires
        k > 0,
        b >= 0,
    ensures
        b * k < n <==> b < batches(n, k),
    decreases n,
{
    if n <= 0 {
        assert(b * k >= 0) by (nonlinear_arith)
            requires
                b >= 0,
                k > 0,
        ;
    } else if n <= k {
        if b >= 1 {
            assert(b * k >= k) by (nonlinear_arith)
                requires
                    b >= 1,
                    k > 0,
            ;
        }
    } else {
        if b >= 1 {
            lemma_batches(n - k, k, b - 1);
            assert((b - 1) * k == b * k - k) by (nonlinear_arith);
        }
    }
}

proof fn lemma_partition_prefix<T>(f: Seq<FrameModel<T>>, k: int, b: int, vertex: bool)
    requires
        k > 0,
        0 <= b <= batches(f.len() as int, k),
    ensures
        joined(partitioned(f, k).take(b), vertex) == gather(
            f,
            frame_order(f, f.len() as int),
            0,
            if b * k < f.len() { b * k } else { f.len() as int },
            vertex,
        ),
    decreases b,
{
    let n = f.len() as int;
    let o = frame_order(f, n);
    let p = partitioned(f, k);
    if b == 0 {
        assert(p.take(0) =~= Seq::<BlockModel<T>>::empty());
        assert(b * k == 0) by (nonlinear_arith)
            requires
                b == 0,
        ;
    } else {
        let c = b - 1;
        lemma_partition_prefix(f, k, c, vertex);
        lemma_batches(n, k, c);
        assert(b * k == c * k + k) by (nonlinear_arith)
            requires
                c == b - 1,
        ;
        lemma_gather_split(f, o, 0, c * k, batch_end(c, k, n), vertex);
        assert(p.take(b).drop_last() =~= p.take(c));
        assert(p.take(b).last() == p[c]);
        assert(joined(p.take(b), vertex) == joined(p.take(c), vertex) + if vertex {
            p[c].vertex
        } else {
            p[c].material
        });
    }
}

/// Partitioning loses and repeats no sample: the blocks' vertex (or
/// material) payloads laid end to end are the payloads of all frames, taken
/// in ascending frame number.
pub proof fn lemma_partition_keeps_samples<T>(f: Seq<FrameModel<T>>, k: int, vertex: bool)
    requires
        k > 0,
    ensures
        joined(partitioned(f, k), vertex) == gather(
            f,
            frame_order(f, f.len() as int),
            0,
            f.len() as int,
            vertex,
        ),
{
    let n = f.len() as int;
    let nb = batches(n, k) as int;
    lemma_partition_prefix(f, k, nb, vertex);
    lemma_batches(n, k, nb);
    assert(partitioned(f, k).take(nb) =~= partitioned(f, k));
}

/// Frame `a` comes before frame `b`: a smaller frame number, or the same
/// number and an earlier storage position.
pub open spec fn before<T>(f: Seq<FrameModel<T>>, a: int, b: int) -> bool {
    f[a].frame_number < f[b].frame_number || (f[a].frame_number == f[b].frame_number && a < b)
}

/// `o` lists frame indices in ascending frame number, equal numbers in
/// storage order (so no index twice).
pub open spec fn stably_sorted<T>(f: Seq<FrameModel<T>>, o: Seq<int>) -> bool {
    forall|i: int, j: int| 0 <= i < j < o.len() ==> before(f, #[trigger] o[i], #[trigger] o[j])
}

proof fn lemma_insert_index_sorted<T>(f: Seq<FrameModel<T>>, o: Seq<int>, j: int)
    requires
        stably_sorted(f, o),
        forall|i: int| 0 <= i < o.len() ==> 0 <= #[trigger] o[i] < j,
    ensures
        insert_index(f, o, j).len() == o.len() + 1,
        stably_sorted(f, insert_index(f, o, j)),
        forall|m: int|
            0 <= m < insert_index(f, o, j).len() ==> #[trigger] insert_index(f, o, j)[m] == j
                || exists|q: int| 0 <= q < o.len() && o[q] == insert_index(f, o, j)[m],
    decreases o.len(),
{
    let r = insert_index(f, o, j);
    if o.len() == 0 {
    } else if f[o[0]].frame_number > f[j].frame_number {
        assert forall|a: int, b: int| 0 <= a < b < r.len() implies before(f, #[trigger] r[a], #[trigger] r[b]) by {
            if a == 0 {
                assert(r[b] == o[b - 1]);
                if b - 1 > 0 {
                    assert(before(f, o[0], o[b - 1]));
                }
            } else {
                assert(r[a] == o[a - 1] && r[b] == o[b - 1]);
            }
        }
        assert forall|m: int| 0 <= m < r.len() implies #[trigger] r[m] == j || exists|q: int|
            0 <= q < o.len() && o[q] == r[m] by {
            if m > 0 {
                assert(o[m - 1] == r[m]);
            }
        }
    } else {
        let t = o.drop_first();
        assert forall|i: int, k: int| 0 <= i < k < t.len() implies before(f, #[trigger] t[i], #[trigger] t[k]) by {
            assert(t[i] == o[i + 1] && t[k] == o[k + 1]);
        }
        assert forall|i: int| 0 <= i < t.len() implies 0 <= #[trigger] t[i] < j by {
            assert(t[i] == o[i + 1]);
        }
        lemma_insert_index_sorted(f, t, j);
        let rt = insert_index(f, t, j);
        assert(r == seq![o[0]] + rt);
        assert forall|m: int| 0 <= m < rt.len() implies before(f, o[0], #[trigger] rt[m]) by {
            if rt[m] != j {
                let q = choose|q: int| 0 <= q < t.len() && t[q] == rt[m];
                assert(t[q] == o[q + 1]);
            }
        }
        assert forall|a: int, b: int| 0 <= a < b < r.len() implies before(f, #[trigger] r[a], #[trigger] r[b]) by {
            assert(r[b] == rt[b - 1]);
            if a > 0 {
                assert(r[a] == rt[a - 1]);
            }
        }
        assert forall|m: int| 0 <= m < r.len() implies #[trigger] r[m] == j || exists|q: int|
            0 <= q < o.len() && o[q] == r[m] by {
            if m == 0 {
                assert(o[0] == r[0]);
            } else {
                assert(r[m] == rt[m - 1]);
                if rt[m - 1] != j {
                    let q = choose|q: int| 0 <= q < t.len() && t[q] == rt[m - 1];
                    assert(o[q + 1] == r[m]);
                }
            }
        }
    }
}

/// The order in which frames are batched is a stable sort by frame number:
/// it lists each of the indices `0..n` once (`n` distinct indices in range),
/// frame numbers never decrease along it, and frames with equal numbers keep
/// their storage order.
pub proof fn lemma_frame_order_sorted<T>(f: Seq<FrameModel<T>>, n: int)
    requires
        0 <= n,
    ensures
        frame_order(f, n).len() == n,
        forall|i: int| 0 <= i < n ==> 0 <= #[trigger] frame_order(f, n)[i] < n,
        stably_sorted(f, frame_order(f, n)),
        forall|i: int, j: int|
            0 <= i < j < n ==> #[trigger] frame_order(f, n)[i] != #[trigger] frame_order(f, n)[j],
    decreases n,
{
    if n > 0 {
        lemma_frame_order_sorted(f, n - 1);
        let o = frame_order(f, n - 1);
        lemma_insert_index_sorted(f, o, n - 1);
        let r = frame_order(f, n);
        assert forall|i: int| 0 <= i < n implies 0 <= #[trigger] r[i] < n by {
            if r[i] != n - 1 {
                let q = choose|q: int| 0 <= q < o.len() && o[q] == r[i];
            }
        }
        assert forall|i: int, j: int| 0 <= i < j < n implies #[trigger] r[i] != #[trigger] r[j] by {
            assert(before(f, r[i], r[j]));
        }
    }
}

/// Partitioning depends on the frames' contents and the batch size alone:
/// two collections that hold the same records give the same blocks.
pub proof fn lemma_partition_deterministic<T>(a: VideoMetrics<T>, b: VideoMetrics<T>, k: int)
    requires
        a@ == b@,
        k > 0,
    ensures
        partitioned(a@, k) == partitioned(b@, k),
{
}

} // verus!
