//! The parser scenarios, driven through the library with the same
//! floating-point glue that the application uses.
use visualgcode::block::{interpret_block, BlockAction, MoveKind, MoveTargets};
use visualgcode::modes::MachineMode;
use visualgcode::numbers::command_numbers_fit;
use visualgcode::program::read_blocks;
use visualgcode::toolpath::{MoveFacts, Toolpath, ToolpathBuilder};

type Point3D = visualgcode::toolpath::Point3D<f32>;

fn targets_as_f32(t: MoveTargets<u32>) -> MoveTargets<f32> {
    let f = |v: Option<u32>| v.map(f32::from_bits);
    MoveTargets { x: f(t.x), y: f(t.y), z: f(t.z), e: f(t.e), i: f(t.i), j: f(t.j), r: f(t.r), f: f(t.f) }
}

/// Layer, pen and extrusion tolerance.
const EPS: f32 = 0.001;

fn move_facts(p: &ToolpathBuilder<f32>, end: Point3D, e: Option<f32>) -> MoveFacts {
    MoveFacts {
        leaves_layer: p.layer_start_z().map_or(false, |prev_z| (prev_z - end.z).abs() > EPS),
        pen_down: end.z <= EPS,
        extrudes: e.map_or(false, |e| e > p.last_e() + EPS),
    }
}

fn arc_path(start: Point3D, end: Point3D, i: f32, j: f32, clockwise: bool) -> Vec<Point3D> {
    let cx = start.x + i;
    let cy = start.y + j;
    let dx_start = start.x - cx;
    let dy_start = start.y - cy;
    let dx_end = end.x - cx;
    let dy_end = end.y - cy;

    let start_angle = dy_start.atan2(dx_start);
    let mut end_angle = dy_end.atan2(dx_end);

    let radius = (dx_start * dx_start + dy_start * dy_start).sqrt();
    if radius < 0.001 {
        return vec![end];
    }

    if clockwise {
        while end_angle > start_angle - 1e-6 {
            end_angle -= std::f32::consts::TAU;
        }
    } else {
        while end_angle < start_angle + 1e-6 {
            end_angle += std::f32::consts::TAU;
        }
    }

    let angle_step = 0.05;
    let total_arc = end_angle - start_angle;
    let steps = (total_arc.abs() / angle_step).ceil() as usize;
    let steps = steps.max(1);

    let mut path = Vec::with_capacity(steps);
    let mut prev = start;
    for step in 1..=steps {
        let t = step as f32 / steps as f32;
        let angle = start_angle + total_arc * t;
        let x = cx + radius * angle.cos();
        let y = cy + radius * angle.sin();
        let z = prev.z + (end.z - prev.z) * t;
        let p = Point3D { x, y, z };
        path.push(p);
        prev = p;
    }
    path
}

fn check_room(p: &ToolpathBuilder<f32>, added: usize) {
    if p.segment_count() + added > u32::MAX as usize {
        panic!("attempt to add with overflow");
    }
}

fn handle_arc(
    p: &mut ToolpathBuilder<f32>,
    end: Point3D,
    i: f32,
    j: f32,
    clockwise: bool,
    e: Option<f32>,
    mode: MachineMode,
) {
    let facts = move_facts(p, end, e);
    let path = arc_path(p.pos(), end, i, j, clockwise);
    check_room(p, path.len());
    p.handle_arc(end, &path, e, mode, facts);
}

fn handle_move(
    p: &mut ToolpathBuilder<f32>,
    kind: MoveKind,
    t: MoveTargets<f32>,
    mode: MachineMode,
) {
    let pos = p.pos();
    let end = if p.is_relative() {
        Point3D {
            x: pos.x + t.x.unwrap_or(0.0),
            y: pos.y + t.y.unwrap_or(0.0),
            z: pos.z + t.z.unwrap_or(0.0),
        }
    } else {
        Point3D {
            x: t.x.unwrap_or(pos.x),
            y: t.y.unwrap_or(pos.y),
            z: t.z.unwrap_or(pos.z),
        }
    };

    match kind {
        MoveKind::Rapid => {
            let facts = move_facts(p, end, None);
            check_room(p, 1);
            p.handle_g0(end, facts);
        }
        MoveKind::Linear => {
            let facts = move_facts(p, end, t.e);
            check_room(p, 1);
            p.handle_g1(end, t.e, mode, facts);
        }
        MoveKind::Arc { clockwise } => {
            let i = t.i.unwrap_or(0.0);
            let j = t.j.unwrap_or(0.0);
            if t.r.is_some() && i == 0.0 && j == 0.0 {
                // R mode arc
                let r = t.r.unwrap();
                let dx = end.x - pos.x;
                let dy = end.y - pos.y;
                let dist = (dx * dx + dy * dy).sqrt();
                if dist > 0.0 && r.abs() >= dist * 0.5 {
                    let h = (r * r - (dist * 0.5) * (dist * 0.5)).sqrt();
                    let mx = (pos.x + end.x) * 0.5;
                    let my = (pos.y + end.y) * 0.5;
                    let perp_x = -dy / dist * h;
                    let perp_y = dx / dist * h;
                    // The centre always lies on one side, chosen by the direction.
                    let (ci, cj) = if clockwise {
                        (mx - pos.x + perp_x, my - pos.y + perp_y)
                    } else {
                        (mx - pos.x - perp_x, my - pos.y - perp_y)
                    };
                    handle_arc(p, end, ci, cj, clockwise, t.e, mode);
                } else {
                    let facts = move_facts(p, end, t.e);
                    check_room(p, 1);
                    p.handle_g1(end, t.e, mode, facts);
                }
            } else {
                handle_arc(p, end, i, j, clockwise, t.e, mode);
            }
        }
    }
}

fn parse_gcode(source: &str, mode: MachineMode) -> Result<Toolpath<f32>, String> {
    if !command_numbers_fit(source) {
        panic!("G-code command number overflows u32");
    }
    let blocks = read_blocks(source)?;
    let mut p = ToolpathBuilder::new(Point3D::default(), 0.0f32);
    for block in &blocks {
        match interpret_block(block) {
            BlockAction::Modes { relative } => {
                if let Some(relative) = relative {
                    p.set_relative(relative);
                }
            }
            BlockAction::Move { kind, targets } => handle_move(&mut p, kind, targets_as_f32(targets), mode),
        }
    }
    Ok(p.finish())
}

#[test]
fn test_parse_plotter_square() {
    let source = "G21\nG90\nG00 Z1.0\nG00 X0 Y0\nG00 Z0.0\nG01 X10 Y0\nG01 X10 Y10\nG01 X0 Y10\nG01 X0 Y0\nG00 Z1.0\n";
    let program = parse_gcode(source, MachineMode::Plotter).unwrap();
    // 8 moves: 3 G0 travel, 4 G1 drawing, 1 G0 travel
    assert_eq!(program.segments.len(), 8);
    // 3 layers: Z=1 travel, Z=0 drawing, Z=1 travel
    assert!(program.layers.len() >= 2);
    // first 3 are travel moves (G0 rapid), rest are drawing (G1 with Z<=0)
    assert_eq!(program.segments[0].is_drawing, false);
    assert_eq!(program.segments[1].is_drawing, false);
    assert_eq!(program.segments[2].is_drawing, false);
    assert_eq!(program.segments[3].is_drawing, true);
    assert_eq!(program.segments[4].is_drawing, true);
}

#[test]
fn test_parse_printer_layers() {
    let source = "G21\nG90\nG1 Z0.2 E0.1\nG1 X10 Y0 E0.5\nG1 Z0.4 E0.6\nG1 X0 Y10 E1.0\n";
    let program = parse_gcode(source, MachineMode::Printer3D).unwrap();
    assert_eq!(program.segments.len(), 4);
    assert!(program.layers.len() >= 2);
    // Check E-based extrusion detection
    assert_eq!(program.segments[0].is_drawing, true); // E 0.1 > 0
    assert_eq!(program.segments[1].is_drawing, true); // E 0.5 > 0.1
    assert_eq!(program.segments[2].is_drawing, true); // E 0.6 > 0.5 (new layer)
    assert_eq!(program.segments[3].is_drawing, true); // E 1.0 > 0.6
}

#[test]
fn test_parse_arc() {
    let source = "G21\nG90\nG00 X0 Y0\nG02 X10 Y0 I5 J0\n";
    let program = parse_gcode(source, MachineMode::Plotter).unwrap();
    // G02 should create ~ pi rad / 0.05 = 63 segments
    assert!(program.segments.len() > 10);
    assert_eq!(program.segments[0].is_drawing, false); // G00 travel
}

#[test]
fn test_empty_program() {
    let program = parse_gcode("", MachineMode::Plotter).unwrap();
    assert_eq!(program.segments.len(), 0);
    assert_eq!(program.layers.len(), 0);
}

#[test]
fn plotter_square_layers_and_relative_moves() {
    let source = "G21\nG90\nG00 Z1.0\nG00 X0 Y0\nG00 Z0.0\nG01 X10 Y0\nG01 X10 Y10\nG01 X0 Y10\nG01 X0 Y0\nG00 Z1.0\n";
    let program = parse_gcode(source, MachineMode::Plotter).unwrap();
    let ranges: Vec<(usize, usize)> = program.layers.iter().map(|l| (l.segment_start, l.segment_end)).collect();
    assert_eq!(ranges, vec![(0, 2), (2, 7), (7, 8)]);
    let relative = parse_gcode("G91\nG1 X1 Y1\nG1 X1 Y1\n", MachineMode::Plotter).unwrap();
    assert_eq!(relative.segments[1].end.x, 2.0);
    assert_eq!(relative.segments[1].end.y, 2.0);
}
