use vstd::prelude::*;

use crate::modes::MachineMode;

verus! {

/// A point of the toolpath; `C` is the coordinate type chosen by the caller.
#[derive(Clone, Copy, Debug, Default)]
pub struct Point3D<C> {
    pub x: C,
    pub y: C,
    pub z: C,
}

/// One straight piece of the toolpath.
#[derive(Clone, Debug)]
pub struct Segment<C> {
    pub start: Point3D<C>,
    pub end: Point3D<C>,
    pub is_drawing: bool,
    pub layer_index: u32,
    pub segment_index: u32,
}

/// A run of consecutive segments that share one Z layer:
/// `segment_start..segment_end` in the segment list.
#[derive(Clone, Debug)]
pub struct Layer<C> {
    pub segment_start: usize,
    pub segment_end: usize,
    pub z_height: C,
}

/// The assembled toolpath: segments in program order and the layers
/// that group them.
#[derive(Clone, Debug)]
pub struct Toolpath<C> {
    pub segments: Vec<Segment<C>>,
    pub layers: Vec<Layer<C>>,
}

/// What the caller measured of a move with its coordinate arithmetic.
#[derive(Clone, Copy, Debug)]
pub struct MoveFacts {
    /// The target Z is farther from the open layer's Z than the layer tolerance.
    pub leaves_layer: bool,
    /// The target Z lies at or below the pen-down threshold.
    pub pen_down: bool,
    /// The move's extruder value exceeds the last one by more than the tolerance.
    pub extrudes: bool,
}

/// Whether a feed move draws: in plotter mode when the pen is down, in
/// printer mode when the move carries an extruder value that increases.
pub open spec fn draws(mode: MachineMode, facts: MoveFacts, has_e: bool) -> bool {
    match mode {
        MachineMode::Plotter => facts.pen_down,
        MachineMode::Printer3D => has_e && facts.extrudes,
    }
}

/// The segments that joining `path` to `start` adds, numbered from `first_index`.
pub open spec fn path_segments<C>(
    start: Point3D<C>,
    path: Seq<Point3D<C>>,
    is_drawing: bool,
    layer_index: u32,
    first_index: nat,
) -> Seq<Segment<C>> {
    Seq::new(
        path.len(),
        |j: int|
            Segment {
                start: if j == 0 { start } else { path[j - 1] },
                end: path[j],
                is_drawing,
                layer_index,
                segment_index: (first_index + j) as u32,
            },
    )
}

/// Segments numbered by position, each starting where the previous ended.
pub open spec fn chained<C>(segments: Seq<Segment<C>>) -> bool {
    &&& segments.len() <= u32::MAX
    &&& forall|k: int| 0 <= k < segments.len() ==> #[trigger] segments[k].segment_index == k
    &&& forall|k: int|
        0 < k < segments.len() ==> #[trigger] segments[k].start == segments[k - 1].end
}

/// Non-empty layer ranges, the first starting at 0, each starting where
/// the previous one ends, the last ending at `end`.
pub open spec fn contiguous<C>(layers: Seq<Layer<C>>, end: nat) -> bool {
    &&& forall|i: int|
        0 <= i < layers.len() ==> #[trigger] layers[i].segment_start < layers[i].segment_end
    &&& forall|i: int| 0 <= i < layers.len() ==> #[trigger] layers[i].segment_end <= end
    &&& forall|i: int|
        0 < i < layers.len() ==> #[trigger] layers[i].segment_start == layers[i - 1].segment_end
    &&& (layers.len() > 0 ==> layers[0].segment_start == 0)
    &&& (layers.len() > 0 ==> layers[layers.len() - 1].segment_end == end)
    &&& (layers.len() == 0 ==> end == 0)
}

/// Segment `k` lies in layer `i`.
pub open spec fn in_layer<C>(layers: Seq<Layer<C>>, i: int, k: int) -> bool {
    0 <= i < layers.len() && layers[i].segment_start <= k < layers[i].segment_end
}

/// The contents of a toolpath under construction.
pub struct BuilderModel<C> {
    pub pos: Point3D<C>,
    pub last_e: C,
    pub relative: bool,
    pub layer_start_z: Option<C>,
    pub layer_index: nat,
    /// The number the next segment gets.
    pub segment_index: nat,
    pub segments: Seq<Segment<C>>,
    pub layers: Seq<Layer<C>>,
    /// Index of the first segment of the open layer.
    pub first: nat,
}

impl<C> BuilderModel<C> {
    /// Closed layers cover `0..first`; the open layer holds `first..`;
    /// the layer index of every segment names the layer that holds it.
    pub open spec fn wf(self) -> bool {
        let n = self.segments.len();
        let l = self.layers.len();
        &&& chained(self.segments)
        &&& self.segment_index == n
        &&& self.layer_index == l
        &&& l <= self.first <= n
        &&& (self.layer_start_z is None <==> n == 0)
        &&& (self.layer_start_z is Some ==> self.first < n)
        &&& (n > 0 ==> self.segments[n - 1].end == self.pos)
        &&& contiguous(self.layers, self.first)
        &&& forall|k: int|
            0 <= k < n ==> {
                let li = #[trigger] self.segments[k].layer_index as int;
                &&& li <= l
                &&& (li < l ==> in_layer(self.layers, li, k))
                &&& (li == l <==> self.first <= k)
            }
        &&& forall|i: int, k: int|
            #![trigger self.layers[i], self.segments[k]]
            0 <= k < n && in_layer(self.layers, i, k) ==> self.segments[k].layer_index == i
    }

    /// The layers once the open one, if it holds segments, is closed.
    pub open spec fn closed_layers(self) -> Seq<Layer<C>> {
        if self.first < self.segments.len() {
            self.layers.push(
                Layer {
                    segment_start: self.first as usize,
                    segment_end: self.segments.len() as usize,
                    z_height: self.layer_start_z.unwrap(),
                },
            )
        } else {
            self.layers
        }
    }

    /// The state once a move towards height `z` has been checked against
    /// the open layer: the first move opens a layer; a move that leaves
    /// the layer closes it and opens the next.
    pub open spec fn open_layer(self, z: C, leaves: bool) -> Self {
        match self.layer_start_z {
            None => BuilderModel {
                pos: self.pos,
                last_e: self.last_e,
                relative: self.relative,
                layer_start_z: Some(z),
                layer_index: self.layer_index,
                segment_index: self.segment_index,
                segments: self.segments,
                layers: self.layers,
                first: self.first,
            },
            Some(_) => if leaves {
                BuilderModel {
                    pos: self.pos,
                    last_e: self.last_e,
                    relative: self.relative,
                    layer_start_z: Some(z),
                    layer_index: self.layer_index + 1,
                    segment_index: self.segment_index,
                    segments: self.segments,
                    layers: self.closed_layers(),
                    first: self.segments.len(),
                }
            } else {
                self
            },
        }
    }

    /// The state after a move to `end` traced along `path` (whose last
    /// point is where the tool stops), with extruder value `e`.
    pub open spec fn apply_move(
        self,
        end: Point3D<C>,
        path: Seq<Point3D<C>>,
        leaves: bool,
        is_drawing: bool,
        e: Option<C>,
    ) -> Self {
        let m = self.open_layer(end.z, leaves);
        BuilderModel {
            pos: path.last(),
            last_e: match e {
                Some(v) => v,
                None => self.last_e,
            },
            relative: m.relative,
            layer_start_z: m.layer_start_z,
            layer_index: m.layer_index,
            segment_index: m.segment_index + path.len(),
            segments: m.segments + path_segments(
                self.pos,
                path,
                is_drawing,
                m.layer_index as u32,
                self.segments.len(),
            ),
            layers: m.layers,
            first: m.first,
        }
    }

    /// The toolpath that finishing yields.
    pub open spec fn finished(self) -> (Seq<Segment<C>>, Seq<Layer<C>>) {
        (self.segments, self.closed_layers())
    }
}

impl<C> Toolpath<C> {
    /// Segments numbered and chained; layers partition them into
    /// consecutive non-empty ranges; each segment's layer index names
    /// the one layer that holds it.
    pub open spec fn well_formed(&self) -> bool {
        well_formed_parts(self.segments@, self.layers@)
    }
}

/// See `Toolpath::well_formed`.
pub open spec fn well_formed_parts<C>(segments: Seq<Segment<C>>, layers: Seq<Layer<C>>) -> bool {
    &&& chained(segments)
    &&& contiguous(layers, segments.len())
    &&& forall|k: int|
        0 <= k < segments.len() ==> in_layer(
            layers,
            #[trigger] segments[k].layer_index as int,
            k,
        )
    &&& forall|i: int, k: int|
        #![trigger layers[i], segments[k]]
        0 <= k < segments.len() && in_layer(layers, i, k) ==> segments[k].layer_index == i
}

/// Every segment lies in exactly one layer, the one its layer index names.
pub proof fn lemma_layers_partition<C>(segments: Seq<Segment<C>>, layers: Seq<Layer<C>>, k: int)
    requires
        well_formed_parts(segments, layers),
        0 <= k < segments.len(),
    ensures
        in_layer(layers, segments[k].layer_index as int, k),
        forall|i: int| in_layer(layers, i, k) ==> i == segments[k].layer_index,
{
    assert forall|i: int| in_layer(layers, i, k) implies i == segments[k].layer_index by {
        let _ = layers[i];
    }
}

/// A new builder keeps the toolpath well formed.
pub proof fn lemma_new_wf<C>(m: BuilderModel<C>)
    requires
        m.layer_start_z is None,
        m.layer_index == 0,
        m.segment_index == 0,
        m.segments.len() == 0,
        m.layers.len() == 0,
        m.first == 0,
    ensures
        m.wf(),
{
}

/// Every move keeps the toolpath under construction well formed.
pub proof fn lemma_apply_move_wf<C>(
    m: BuilderModel<C>,
    end: Point3D<C>,
    path: Seq<Point3D<C>>,
    leaves: bool,
    is_drawing: bool,
    e: Option<C>,
)
    requires
        m.wf(),
        path.len() >= 1,
        m.segments.len() + path.len() <= u32::MAX,
    ensures
        m.apply_move(end, path, leaves, is_drawing, e).wf(),
{
    let m1 = m.open_layer(end.z, leaves);
    let n = m.segments.len();
    // The layer check keeps everything but the open range.
    assert(m1.segments == m.segments);
    assert(m1.layers.len() == m1.layer_index);
    assert(m1.first <= n);
    assert(contiguous(m1.layers, m1.first)) by {
        if m.layer_start_z is Some && leaves {
            assert(m.first < n);
            assert(m1.layers == m.layers.push(m1.layers.last()));
        }
    }
    assert forall|k: int| 0 <= k < n implies {
        let li = #[trigger] m1.segments[k].layer_index as int;
        &&& li <= m1.layers.len()
        &&& (li < m1.layers.len() ==> in_layer(m1.layers, li, k))
        &&& (li == m1.layers.len() <==> m1.first <= k)
    } by {
        let li = m.segments[k].layer_index as int;
        if m.layer_start_z is Some && leaves {
            if li < m.layers.len() {
                assert(m1.layers[li] == m.layers[li]);
            }
        }
    }
    assert forall|i: int, k: int|
        #![trigger m1.layers[i], m1.segments[k]]
        0 <= k < n && in_layer(m1.layers, i, k) implies m1.segments[k].layer_index == i by {
        if m.layer_start_z is Some && leaves && i < m.layers.len() {
            assert(m1.layers[i] == m.layers[i]);
            let _ = m.layers[i];
        } else if !(m.layer_start_z is Some && leaves) {
            let _ = m.layers[i];
        }
    }
    let r = m.apply_move(end, path, leaves, is_drawing, e);
    let added = path_segments(m.pos, path, is_drawing, m1.layer_index as u32, n);
    assert(r.segments == m.segments + added);
    assert forall|k: int| 0 <= k < r.segments.len() implies #[trigger] r.segments[k].segment_index
        == k by {
        if k >= n {
            assert(r.segments[k] == added[k - n]);
        }
    }
    assert forall|k: int| 0 < k < r.segments.len() implies #[trigger] r.segments[k].start
        == r.segments[k - 1].end by {
        if k > n {
            assert(r.segments[k] == added[k - n]);
            assert(r.segments[k - 1] == added[k - 1 - n]);
        } else if k == n {
            assert(r.segments[k] == added[0]);
        }
    }
    assert forall|k: int| 0 <= k < r.segments.len() implies {
        let li = #[trigger] r.segments[k].layer_index as int;
        &&& li <= r.layers.len()
        &&& (li < r.layers.len() ==> in_layer(r.layers, li, k))
        &&& (li == r.layers.len() <==> r.first <= k)
    } by {
        if k >= n {
            assert(r.segments[k] == added[k - n]);
        } else {
            assert(r.segments[k] == m1.segments[k]);
        }
    }
    assert forall|i: int, k: int|
        #![trigger r.layers[i], r.segments[k]]
        0 <= k < r.segments.len() && in_layer(r.layers, i, k) implies r.segments[k].layer_index
        == i by {
        let _ = m1.layers[i];
        let _ = m1.segments[k];
        assert(r.segments[k] == m1.segments[k]);
    }
    assert(r.segments[r.segments.len() - 1] == added[path.len() - 1]);
}

/// Finishing a well-formed builder yields a well-formed toolpath.
pub proof fn lemma_finished_well_formed<C>(m: BuilderModel<C>)
    requires
        m.wf(),
    ensures
        well_formed_parts(m.finished().0, m.finished().1),
{
    let layers = m.closed_layers();
    let n = m.segments.len();
    if m.first < n {
        assert(layers == m.layers.push(layers.last()));
        assert forall|k: int| 0 <= k < n implies in_layer(
            layers,
            #[trigger] m.segments[k].layer_index as int,
            k,
        ) by {
            let li = m.segments[k].layer_index as int;
            if li < m.layers.len() {
                assert(layers[li] == m.layers[li]);
            }
        }
        assert forall|i: int, k: int|
            #![trigger layers[i], m.segments[k]]
            0 <= k < n && in_layer(layers, i, k) implies m.segments[k].layer_index == i by {
            if i < m.layers.len() {
                assert(layers[i] == m.layers[i]);
                let _ = m.layers[i];
            }
        }
    } else {
        assert forall|k: int| 0 <= k < n implies in_layer(
            layers,
            #[trigger] m.segments[k].layer_index as int,
            k,
        ) by {
        }
    }
}

/// What a move appends: one segment per path point, in order, numbered on
/// from the segments before, the first starting where the tool stood and
/// each next one where the previous ended; the segments before stay.
pub proof fn lemma_move_appends<C>(
    m: BuilderModel<C>,
    end: Point3D<C>,
    path: Seq<Point3D<C>>,
    leaves: bool,
    is_drawing: bool,
    e: Option<C>,
)
    requires
        m.segments.len() + path.len() <= u32::MAX,
    ensures
        ({
            let r = m.apply_move(end, path, leaves, is_drawing, e);
            let n = m.segments.len() as int;
            &&& r.segments.len() == n + path.len()
            &&& r.segments.subrange(0, n) == m.segments
            &&& forall|j: int|
                0 <= j < path.len() ==> {
                    let seg = #[trigger] r.segments[n + j];
                    &&& seg.end == path[j]
                    &&& seg.start == if j == 0 {
                        m.pos
                    } else {
                        path[j - 1]
                    }
                    &&& seg.is_drawing == is_drawing
                    &&& seg.segment_index == n + j
                }
        }),
{
    let r = m.apply_move(end, path, leaves, is_drawing, e);
    let n = m.segments.len() as int;
    assert(r.segments.subrange(0, n) =~= m.segments);
    assert forall|j: int| 0 <= j < path.len() implies {
        let seg = #[trigger] r.segments[n + j];
        &&& seg.end == path[j]
        &&& seg.start == if j == 0 {
            m.pos
        } else {
            path[j - 1]
        }
        &&& seg.is_drawing == is_drawing
        &&& seg.segment_index == n + j
    } by {
        assert(r.segments[n + j] == path_segments(
            m.pos,
            path,
            is_drawing,
            m.open_layer(end.z, leaves).layer_index as u32,
            m.segments.len(),
        )[j]);
    }
}

/// How a move groups into Z layers. The first move opens layer 0 at its
/// target Z. A later move that leaves the open layer closes it (the
/// closed layer spans from its first segment to the segments so far, at
/// the Z it was opened at) and puts its own segments in the next layer,
/// opened at its target Z. A move that stays puts its segments in the
/// layer of the segment before it, and the layers stay as they were.
pub proof fn lemma_move_layers<C>(
    m: BuilderModel<C>,
    end: Point3D<C>,
    path: Seq<Point3D<C>>,
    leaves: bool,
    is_drawing: bool,
    e: Option<C>,
)
    requires
        m.wf(),
        path.len() >= 1,
        m.segments.len() + path.len() <= u32::MAX,
    ensures
        ({
            let r = m.apply_move(end, path, leaves, is_drawing, e);
            let n = m.segments.len() as int;
            &&& n == 0 ==> {
                &&& r.layers == m.layers
                &&& r.layers.len() == 0
                &&& r.layer_start_z == Some(end.z)
                &&& forall|j: int|
                    0 <= j < path.len() ==> (#[trigger] r.segments[n + j]).layer_index == 0
            }
            &&& n > 0 && leaves ==> {
                &&& r.layers == m.layers.push(
                    Layer {
                        segment_start: m.first as usize,
                        segment_end: n as usize,
                        z_height: m.layer_start_z->0,
                    },
                )
                &&& r.layer_start_z == Some(end.z)
                &&& r.first == n
                &&& forall|j: int|
                    0 <= j < path.len() ==> (#[trigger] r.segments[n + j]).layer_index
                        == m.segments[n - 1].layer_index + 1
            }
            &&& n > 0 && !leaves ==> {
                &&& r.layers == m.layers
                &&& r.layer_start_z == m.layer_start_z
                &&& r.first == m.first
                &&& forall|j: int|
                    0 <= j < path.len() ==> (#[trigger] r.segments[n + j]).layer_index
                        == m.segments[n - 1].layer_index
            }
        }),
{
    let r = m.apply_move(end, path, leaves, is_drawing, e);
    let n = m.segments.len() as int;
    let m1 = m.open_layer(end.z, leaves);
    if n > 0 {
        assert(m.segments[n - 1].layer_index == m.layers.len());
    }
    assert forall|j: int| 0 <= j < path.len() implies (#[trigger] r.segments[n + j]).layer_index
        == m1.layer_index by {
        assert(r.segments[n + j] == path_segments(
            m.pos,
            path,
            is_drawing,
            m1.layer_index as u32,
            m.segments.len(),
        )[j]);
    }
}

/// In plotter mode a feed move (G1, or each piece of a G2/G3 arc) draws
/// exactly when its target lies at or below the pen threshold, whether or
/// not it leaves the Z layer.
pub proof fn lemma_plotter_feed_draws_iff_pen_down<C>(
    m: BuilderModel<C>,
    end: Point3D<C>,
    path: Seq<Point3D<C>>,
    e: Option<C>,
    facts: MoveFacts,
)
    requires
        m.wf(),
        m.segments.len() + path.len() <= u32::MAX,
    ensures
        forall|j: int|
            0 <= j < path.len() ==> (#[trigger] m.apply_move(
                end,
                path,
                facts.leaves_layer,
                draws(MachineMode::Plotter, facts, e is Some),
                e,
            ).segments[m.segments.len() + j]).is_drawing == facts.pen_down,
{
    lemma_move_appends(
        m,
        end,
        path,
        facts.leaves_layer,
        draws(MachineMode::Plotter, facts, e is Some),
        e,
    );
}

/// In printer mode a feed move draws exactly when it carries an extruder
/// value that exceeds the last one.
pub proof fn lemma_printer_feed_draws_iff_extruding<C>(
    m: BuilderModel<C>,
    end: Point3D<C>,
    path: Seq<Point3D<C>>,
    e: Option<C>,
    facts: MoveFacts,
)
    requires
        m.wf(),
        m.segments.len() + path.len() <= u32::MAX,
    ensures
        forall|j: int|
            0 <= j < path.len() ==> (#[trigger] m.apply_move(
                end,
                path,
                facts.leaves_layer,
                draws(MachineMode::Printer3D, facts, e is Some),
                e,
            ).segments[m.segments.len() + j]).is_drawing == (e is Some && facts.extrudes),
{
    lemma_move_appends(
        m,
        end,
        path,
        facts.leaves_layer,
        draws(MachineMode::Printer3D, facts, e is Some),
        e,
    );
}

/// Assembles the toolpath move by move: numbers the segments, chains them
/// from the current position, and groups them into Z layers.
pub struct ToolpathBuilder<C> {
    pos: Point3D<C>,
    last_e: C,
    relative: bool,
    layer_start_z: Option<C>,
    layer_index: u32,
    segment_index: u32,
    segments: Vec<Segment<C>>,
    layers: Vec<Layer<C>>,
    current_layer_first_segment: usize,
}

impl<C> View for ToolpathBuilder<C> {
    type V = BuilderModel<C>;

    closed spec fn view(&self) -> BuilderModel<C> {
        BuilderModel {
            pos: self.pos,
            last_e: self.last_e,
            relative: self.relative,
            layer_start_z: self.layer_start_z,
            layer_index: self.layer_index as nat,
            segment_index: self.segment_index as nat,
            segments: self.segments@,
            layers: self.layers@,
            first: self.current_layer_first_segment as nat,
        }
    }
}

impl<C: Copy> ToolpathBuilder<C> {
    /// The counters agree with the contents.
    pub closed spec fn inv(&self) -> bool {
        self@.wf()
    }

    /// An empty toolpath whose tool stands at `origin`, with extruder
    /// value `initial_e`, in absolute distance mode.
    pub fn new(origin: Point3D<C>, initial_e: C) -> (r: Self)
        ensures
            r.inv(),
            r@.pos == origin,
            r@.last_e == initial_e,
            !r@.relative,
            r@.layer_start_z is None,
            r@.layer_index == 0,
            r@.segment_index == 0,
            r@.segments.len() == 0,
            r@.layers.len() == 0,
            r@.first == 0,
    {
        let r = ToolpathBuilder {
            pos: origin,
            last_e: initial_e,
            relative: false,
            layer_start_z: None,
            layer_index: 0,
            segment_index: 0,
            segments: Vec::new(),
            layers: Vec::new(),
            current_layer_first_segment: 0,
        };
        proof {
            lemma_new_wf(r@);
        }
        r
    }

    pub fn pos(&self) -> (r: Point3D<C>)
        ensures
            r == self@.pos,
    {
        self.pos
    }

    pub fn last_e(&self) -> (r: C)
        ensures
            r == self@.last_e,
    {
        self.last_e
    }

    pub fn is_relative(&self) -> (r: bool)
        ensures
            r == self@.relative,
    {
        self.relative
    }

    /// The Z at which the open layer began, if a layer is open.
    pub fn layer_start_z(&self) -> (r: Option<C>)
        ensures
            r == self@.layer_start_z,
    {
        self.layer_start_z
    }

    pub fn segment_count(&self) -> (r: usize)
        requires
            self.inv(),
        ensures
            r == self@.segments.len(),
    {
        self.segments.len()
    }

    /// Switches between absolute (`false`) and relative (`true`) distances.
    pub fn set_relative(&mut self, relative: bool)
        requires
            old(self).inv(),
        ensures
            final(self).inv(),
            final(self)@ == (BuilderModel { relative, ..old(self)@ }),
    {
        self.relative = relative;
    }

    fn close_open_layer(&mut self)
        requires
            old(self).inv(),
        ensures
            final(self)@ == (BuilderModel { layers: old(self)@.closed_layers(), ..old(self)@ }),
            final(self).segment_index == old(self).segment_index,
    {
        let start = self.current_layer_first_segment;
        let end = self.segments.len();
        if end > start {
            let z = self.layer_start_z.unwrap();
            self.layers.push(Layer { segment_start: start, segment_end: end, z_height: z });
        }
    }

    fn ensure_layer(&mut self, z: C, leaves: bool)
        requires
            old(self).inv(),
        ensures
            final(self)@ == old(self)@.open_layer(z, leaves),
            final(self).segment_index == old(self).segment_index,
    {
        match self.layer_start_z {
            None => {
                self.layer_start_z = Some(z);
            },
            Some(_) => {
                if leaves {
                    self.close_open_layer();
                    self.layer_index = self.layer_index + 1;
                    self.layer_start_z = Some(z);
                    self.current_layer_first_segment = self.segments.len();
                }
            },
        }
    }

    fn record_path(&mut self, path: &Vec<Point3D<C>>, is_drawing: bool)
        requires
            old(self).segment_index as nat == old(self)@.segments.len(),
            old(self)@.segments.len() + path@.len() <= u32::MAX,
            path@.len() >= 1,
        ensures
            final(self)@ == (BuilderModel {
                pos: path@.last(),
                segment_index: old(self)@.segment_index + path@.len(),
                segments: old(self)@.segments + path_segments(
                    old(self)@.pos,
                    path@,
                    is_drawing,
                    old(self).layer_index,
                    old(self)@.segments.len(),
                ),
                ..old(self)@
            }),
            final(self).segment_index as nat == final(self)@.segments.len(),
    {
        let ghost start = self@;
        let ghost layer = self.layer_index;
        let mut i: usize = 0;
        while i < path.len()
            invariant
                0 <= i <= path@.len(),
                self.segment_index as nat == self@.segments.len(),
                start.segments.len() + path@.len() <= u32::MAX,
                self.layer_index == layer,
                self@ == (BuilderModel {
                    pos: if i == 0 { start.pos } else { path@[i - 1] },
                    segment_index: start.segment_index + i as nat,
                    segments: start.segments + path_segments(
                        start.pos,
                        path@.take(i as int),
                        is_drawing,
                        layer,
                        start.segments.len(),
                    ),
                    ..start
                }),
            decreases path@.len() - i,
        {
            let p = path[i];
            let seg = Segment {
                start: self.pos,
                end: p,
                is_drawing,
                layer_index: self.layer_index,
                segment_index: self.segment_index,
            };
            self.segment_index = self.segment_index + 1;
            self.segments.push(seg);
            self.pos = p;
            i = i + 1;
            proof {
                let prev = path_segments(
                    start.pos,
                    path@.take(i - 1),
                    is_drawing,
                    layer,
                    start.segments.len(),
                );
                let cur = path_segments(
                    start.pos,
                    path@.take(i as int),
                    is_drawing,
                    layer,
                    start.segments.len(),
                );
                assert(cur =~= prev.push(seg));
                assert(start.segments + cur =~= (start.segments + prev).push(seg));
            }
        }
        proof {
            assert(path@.take(path@.len() as int) =~= path@);
        }
    }

    fn apply(&mut self, end: Point3D<C>, path: &Vec<Point3D<C>>, leaves: bool, is_drawing: bool, e: Option<C>)
        requires
            old(self).inv(),
            path@.len() >= 1,
            old(self)@.segments.len() + path@.len() <= u32::MAX,
        ensures
            final(self).inv(),
            final(self)@ == old(self)@.apply_move(end, path@, leaves, is_drawing, e),
    {
        let ghost before = self@;
        proof {
            lemma_apply_move_wf(before, end, path@, leaves, is_drawing, e);
        }
        self.ensure_layer(end.z, leaves);
        if let Some(v) = e {
            self.last_e = v;
        }
        self.record_path(path, is_drawing);
        assert(self@ =~= before.apply_move(end, path@, leaves, is_drawing, e));
    }

    /// A rapid (G0) move to `end`: never draws.
    pub fn handle_g0(&mut self, end: Point3D<C>, facts: MoveFacts)
        requires
            old(self).inv(),
            old(self)@.segments.len() < u32::MAX,
        ensures
            final(self).inv(),
            final(self)@ == old(self)@.apply_move(end, seq![end], facts.leaves_layer, false, None),
            final(self)@.segments.len() == old(self)@.segments.len() + 1,
            final(self)@.segments.last().start == old(self)@.pos,
            final(self)@.segments.last().end == end,
            !final(self)@.segments.last().is_drawing,
            final(self)@.segments.last().layer_index == if old(self)@.segments.len() == 0 {
                0
            } else if facts.leaves_layer {
                old(self)@.segments.last().layer_index + 1
            } else {
                old(self)@.segments.last().layer_index as int
            },
            final(self)@.layers.len() == if old(self)@.segments.len() > 0 && facts.leaves_layer {
                old(self)@.layers.len() + 1
            } else {
                old(self)@.layers.len()
            },
            final(self)@.pos == end,
            final(self)@.last_e == old(self)@.last_e,
    {
        let path = vec![end];
        assert(path@ =~= seq![end]);
        proof {
            lemma_move_appends(old(self)@, end, seq![end], facts.leaves_layer, false, None);
            lemma_move_layers(old(self)@, end, seq![end], facts.leaves_layer, false, None);
            assert(seq![end][0] == end);
        }
        self.apply(end, &path, facts.leaves_layer, false, None);
    }

    /// A linear feed (G1) move to `end` with optional extruder value `e`.
    pub fn handle_g1(&mut self, end: Point3D<C>, e: Option<C>, mode: MachineMode, facts: MoveFacts)
        requires
            old(self).inv(),
            old(self)@.segments.len() < u32::MAX,
        ensures
            final(self).inv(),
            final(self)@ == old(self)@.apply_move(
                end,
                seq![end],
                facts.leaves_layer,
                draws(mode, facts, e is Some),
                e,
            ),
            final(self)@.segments.len() == old(self)@.segments.len() + 1,
            final(self)@.segments.last().start == old(self)@.pos,
            final(self)@.segments.last().end == end,
            mode == MachineMode::Plotter ==> final(self)@.segments.last().is_drawing
                == facts.pen_down,
            mode == MachineMode::Printer3D ==> final(self)@.segments.last().is_drawing == (
            e is Some && facts.extrudes),
            final(self)@.segments.last().layer_index == if old(self)@.segments.len() == 0 {
                0
            } else if facts.leaves_layer {
                old(self)@.segments.last().layer_index + 1
            } else {
                old(self)@.segments.last().layer_index as int
            },
            final(self)@.layers.len() == if old(self)@.segments.len() > 0 && facts.leaves_layer {
                old(self)@.layers.len() + 1
            } else {
                old(self)@.layers.len()
            },
            final(self)@.pos == end,
            final(self)@.last_e == match e {
                Some(v) => v,
                None => old(self)@.last_e,
            },
    {
        let is_drawing = match mode {
            MachineMode::Plotter => facts.pen_down,
            MachineMode::Printer3D => match e {
                Some(_) => facts.extrudes,
                None => false,
            },
        };
        let path = vec![end];
        assert(path@ =~= seq![end]);
        proof {
            lemma_move_appends(old(self)@, end, seq![end], facts.leaves_layer, is_drawing, e);
            lemma_move_layers(old(self)@, end, seq![end], facts.leaves_layer, is_drawing, e);
            assert(seq![end][0] == end);
        }
        self.apply(end, &path, facts.leaves_layer, is_drawing, e);
    }

    /// An arc (G2/G3) towards `end`, traced through the points of `path`,
    /// with optional extruder value `e`.
    pub fn handle_arc(
        &mut self,
        end: Point3D<C>,
        path: &Vec<Point3D<C>>,
        e: Option<C>,
        mode: MachineMode,
        facts: MoveFacts,
    )
        requires
            old(self).inv(),
            path@.len() >= 1,
            old(self)@.segments.len() + path@.len() <= u32::MAX,
        ensures
            final(self).inv(),
            final(self)@ == old(self)@.apply_move(
                end,
                path@,
                facts.leaves_layer,
                draws(mode, facts, e is Some),
                e,
            ),
            final(self)@.segments.len() == old(self)@.segments.len() + path@.len(),
            forall|j: int|
                0 <= j < path@.len() ==> {
                    let seg = #[trigger] final(self)@.segments[old(self)@.segments.len() + j];
                    &&& seg.end == path@[j]
                    &&& seg.start == if j == 0 {
                        old(self)@.pos
                    } else {
                        path@[j - 1]
                    }
                    &&& (mode == MachineMode::Plotter ==> seg.is_drawing == facts.pen_down)
                    &&& (mode == MachineMode::Printer3D ==> seg.is_drawing == (e is Some
                        && facts.extrudes))
                    &&& seg.layer_index == if old(self)@.segments.len() == 0 {
                        0
                    } else if facts.leaves_layer {
                        old(self)@.segments.last().layer_index + 1
                    } else {
                        old(self)@.segments.last().layer_index as int
                    }
                },
            final(self)@.layers.len() == if old(self)@.segments.len() > 0 && facts.leaves_layer {
                old(self)@.layers.len() + 1
            } else {
                old(self)@.layers.len()
            },
            final(self)@.pos == path@.last(),
    {
        let is_drawing = match mode {
            MachineMode::Plotter => facts.pen_down,
            MachineMode::Printer3D => match e {
                Some(_) => facts.extrudes,
                None => false,
            },
        };
        proof {
            lemma_move_appends(old(self)@, end, path@, facts.leaves_layer, is_drawing, e);
            lemma_move_layers(old(self)@, end, path@, facts.leaves_layer, is_drawing, e);
        }
        self.apply(end, path, facts.leaves_layer, is_drawing, e);
    }

    /// Closes the open layer and hands out the toolpath.
    pub fn finish(self) -> (r: Toolpath<C>)
        requires
            self.inv(),
        ensures
            (r.segments@, r.layers@) == self@.finished(),
            r.well_formed(),
    {
        let ghost m = self@;
        let mut s = self;
        s.close_open_layer();
        proof {
            lemma_finished_well_formed(m);
        }
        Toolpath { segments: s.segments, layers: s.layers }
    }
}

} // verus!
