use vstd::prelude::*;

use crate::toolpath::{Point3D, Segment};

verus! {

/// One end of a segment as the line list draws it.
#[derive(Clone, Copy, Debug)]
pub struct SegmentVertex<C> {
    pub position: Point3D<C>,
    /// 1 for a drawing move, 0 for travel.
    pub is_drawing: u32,
    pub layer_index: u32,
    pub segment_index: u32,
}

/// The vertex at `position` that carries the attributes of `seg`.
pub open spec fn vertex_of<C>(seg: Segment<C>, position: Point3D<C>) -> SegmentVertex<C> {
    SegmentVertex {
        position,
        is_drawing: if seg.is_drawing {
            1
        } else {
            0
        },
        layer_index: seg.layer_index,
        segment_index: seg.segment_index,
    }
}

/// Both vertices of a segment carry that segment's own layer index,
/// segment index and drawing flag (1 exactly when it draws), and sit at
/// its start and its end: the shader filters layers and cuts progress on
/// the numbers of the segment itself.
pub proof fn lemma_vertex_carries_segment<C>(seg: Segment<C>, position: Point3D<C>)
    ensures
        vertex_of(seg, position).position == position,
        vertex_of(seg, position).layer_index == seg.layer_index,
        vertex_of(seg, position).segment_index == seg.segment_index,
        (vertex_of(seg, position).is_drawing == 1) == seg.is_drawing,
        (vertex_of(seg, position).is_drawing == 0) == !seg.is_drawing,
{
}

/// In a line list built from `segments`, vertex `v` belongs to segment
/// `v / 2`: its layer and segment index are that segment's, and it is
/// the segment's start when `v` is even and its end when `v` is odd.
pub proof fn lemma_line_list_vertex<C>(
    segments: Seq<Segment<C>>,
    r: Seq<SegmentVertex<C>>,
    v: int,
)
    requires
        r.len() == 2 * segments.len(),
        forall|k: int|
            0 <= k < segments.len() ==> r[2 * k] == vertex_of(
                #[trigger] segments[k],
                segments[k].start,
            ) && r[2 * k + 1] == vertex_of(segments[k], segments[k].end),
        0 <= v < r.len(),
    ensures
        r[v].layer_index == segments[v / 2].layer_index,
        r[v].segment_index == segments[v / 2].segment_index,
        (r[v].is_drawing == 1) == segments[v / 2].is_drawing,
        r[v].position == if v % 2 == 0 {
            segments[v / 2].start
        } else {
            segments[v / 2].end
        },
{
    let k = v / 2;
    assert(0 <= k < segments.len());
    assert(v == 2 * k || v == 2 * k + 1);
    assert(r[2 * k] == vertex_of(segments[k], segments[k].start));
}

/// The line list of a toolpath: for each segment in order, its start
/// vertex and then its end vertex.
pub fn build_vertices<C: Copy>(segments: &Vec<Segment<C>>) -> (r: Vec<SegmentVertex<C>>)
    ensures
        r@.len() == 2 * segments@.len(),
        forall|k: int|
            0 <= k < segments@.len() ==> r@[2 * k] == vertex_of(
                #[trigger] segments@[k],
                segments@[k].start,
            ) && r@[2 * k + 1] == vertex_of(segments@[k], segments@[k].end),
        forall|k: int|
            0 <= k < segments@.len() ==> {
                &&& r@[2 * k].position == (#[trigger] segments@[k]).start
                &&& r@[2 * k + 1].position == segments@[k].end
                &&& r@[2 * k].layer_index == segments@[k].layer_index
                &&& r@[2 * k + 1].layer_index == segments@[k].layer_index
                &&& r@[2 * k].segment_index == segments@[k].segment_index
                &&& r@[2 * k + 1].segment_index == segments@[k].segment_index
                &&& (r@[2 * k].is_drawing == 1) == segments@[k].is_drawing
                &&& (r@[2 * k + 1].is_drawing == 1) == segments@[k].is_drawing
                &&& r@[2 * k].is_drawing <= 1
                &&& r@[2 * k + 1].is_drawing <= 1
            },
{
    let mut vertices: Vec<SegmentVertex<C>> = Vec::new();
    let mut k: usize = 0;
    while k < segments.len()
        invariant
            0 <= k <= segments@.len(),
            vertices@.len() == 2 * k,
            forall|j: int|
                0 <= j < k ==> vertices@[2 * j] == vertex_of(
                    #[trigger] segments@[j],
                    segments@[j].start,
                ) && vertices@[2 * j + 1] == vertex_of(
                    segments@[j],
                    segments@[j].end,
                ),
        decreases segments@.len() - k,
    {
        let seg = &segments[k];
        let flag: u32 = if seg.is_drawing {
            1
        } else {
            0
        };
        vertices.push(
            SegmentVertex {
                position: seg.start,
                is_drawing: flag,
                layer_index: seg.layer_index,
                segment_index: seg.segment_index,
            },
        );
        vertices.push(
            SegmentVertex {
                position: seg.end,
                is_drawing: flag,
                layer_index: seg.layer_index,
                segment_index: seg.segment_index,
            },
        );
        k = k + 1;
    }
    vertices
}

} // verus!
