use visualgcode::modes::MachineMode;
use visualgcode::toolpath::{MoveFacts, Point3D, ToolpathBuilder};
use visualgcode::vertices::build_vertices;

fn p(x: i32, y: i32, z: i32) -> Point3D<i32> {
    Point3D { x, y, z }
}

fn facts(leaves_layer: bool, pen_down: bool, extrudes: bool) -> MoveFacts {
    MoveFacts { leaves_layer, pen_down, extrudes }
}

#[test]
fn empty_toolpath() {
    let b: ToolpathBuilder<i32> = ToolpathBuilder::new(p(0, 0, 0), 0);
    assert_eq!(b.segment_count(), 0);
    assert_eq!(b.layer_start_z(), None);
    assert!(!b.is_relative());
    let t = b.finish();
    assert!(t.segments.is_empty());
    assert!(t.layers.is_empty());
}

#[test]
fn moves_chain_and_number() {
    let mut b = ToolpathBuilder::new(p(0, 0, 0), 0);
    b.handle_g0(p(1, 0, 0), facts(false, true, false));
    b.handle_g1(p(2, 0, 0), None, MachineMode::Plotter, facts(false, true, false));
    b.handle_g1(p(3, 0, 0), None, MachineMode::Plotter, facts(false, false, false));
    assert_eq!(b.pos().x, 3);
    let t = b.finish();
    assert_eq!(t.segments.len(), 3);
    for (k, s) in t.segments.iter().enumerate() {
        assert_eq!(s.segment_index as usize, k);
        assert_eq!(s.start.x, k as i32);
        assert_eq!(s.end.x, k as i32 + 1);
    }
    // rapid moves never draw; feed moves draw when the pen is down
    assert!(!t.segments[0].is_drawing);
    assert!(t.segments[1].is_drawing);
    assert!(!t.segments[2].is_drawing);
}

#[test]
fn layers_group_segments() {
    let mut b = ToolpathBuilder::new(p(0, 0, 0), 0);
    b.handle_g0(p(0, 0, 1), facts(false, false, false));
    assert_eq!(b.layer_start_z(), Some(1));
    b.handle_g0(p(0, 0, 0), facts(true, true, false));
    b.handle_g1(p(10, 0, 0), None, MachineMode::Plotter, facts(false, true, false));
    b.handle_g1(p(10, 10, 0), None, MachineMode::Plotter, facts(false, true, false));
    b.handle_g0(p(10, 10, 1), facts(true, false, false));
    let t = b.finish();
    assert_eq!(t.segments.len(), 5);
    assert_eq!(t.layers.len(), 3);
    assert_eq!((t.layers[0].segment_start, t.layers[0].segment_end, t.layers[0].z_height), (0, 1, 1));
    assert_eq!((t.layers[1].segment_start, t.layers[1].segment_end, t.layers[1].z_height), (1, 4, 0));
    assert_eq!((t.layers[2].segment_start, t.layers[2].segment_end, t.layers[2].z_height), (4, 5, 1));
    let li: Vec<u32> = t.segments.iter().map(|s| s.layer_index).collect();
    assert_eq!(li, vec![0, 1, 1, 1, 2]);
    for (k, s) in t.segments.iter().enumerate() {
        let layer = &t.layers[s.layer_index as usize];
        assert!(layer.segment_start <= k && k < layer.segment_end);
    }
}

#[test]
fn printer_extrusion_and_last_e() {
    let mut b = ToolpathBuilder::new(p(0, 0, 0), 0);
    b.handle_g1(p(0, 0, 2), Some(1), MachineMode::Printer3D, facts(false, false, true));
    assert_eq!(b.last_e(), 1);
    b.handle_g1(p(10, 0, 2), Some(1), MachineMode::Printer3D, facts(false, false, false));
    b.handle_g1(p(20, 0, 2), None, MachineMode::Printer3D, facts(false, false, true));
    assert_eq!(b.last_e(), 1);
    let t = b.finish();
    assert!(t.segments[0].is_drawing);
    assert!(!t.segments[1].is_drawing);
    // without an extruder value a printer move never draws
    assert!(!t.segments[2].is_drawing);
}

#[test]
fn arc_path_records_each_point() {
    let mut b = ToolpathBuilder::new(p(0, 0, 0), 0);
    b.handle_g0(p(0, 0, 0), facts(false, true, false));
    let path = vec![p(1, 1, 0), p(2, 1, 0), p(3, 0, 0)];
    b.handle_arc(p(3, 0, 0), &path, None, MachineMode::Plotter, facts(false, true, false));
    assert_eq!(b.segment_count(), 4);
    assert_eq!(b.pos().x, 3);
    let t = b.finish();
    assert_eq!(t.segments[1].start.x, 0);
    assert_eq!(t.segments[1].end.x, 1);
    assert_eq!(t.segments[3].start.x, 2);
    assert!(t.segments[1..].iter().all(|s| s.is_drawing));
    assert_eq!(t.layers.len(), 1);
    assert_eq!(t.layers[0].segment_end, 4);
}

#[test]
fn relative_mode_flag() {
    let mut b: ToolpathBuilder<i32> = ToolpathBuilder::new(p(0, 0, 0), 0);
    b.set_relative(true);
    assert!(b.is_relative());
    b.set_relative(false);
    assert!(!b.is_relative());
}

#[test]
fn vertices_come_in_pairs() {
    let mut b = ToolpathBuilder::new(p(0, 0, 0), 0);
    b.handle_g0(p(1, 0, 0), facts(false, false, false));
    b.handle_g1(p(2, 0, 0), None, MachineMode::Plotter, facts(true, true, false));
    let t = b.finish();
    let v = build_vertices(&t.segments);
    assert_eq!(v.len(), 4);
    assert_eq!((v[0].position.x, v[1].position.x, v[2].position.x, v[3].position.x), (0, 1, 1, 2));
    assert_eq!((v[0].is_drawing, v[1].is_drawing, v[2].is_drawing, v[3].is_drawing), (0, 0, 1, 1));
    assert_eq!((v[2].layer_index, v[3].segment_index), (1, 1));
    assert!(build_vertices::<i32>(&Vec::new()).is_empty());
}
