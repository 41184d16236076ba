use visualgcode::modes::{MachineMode, ViewMode};

#[test]
fn machine_mode_labels() {
    assert_eq!(MachineMode::Plotter.label(), "Pen Plotter");
    assert_eq!(MachineMode::Printer3D.label(), "3D Printer");
}

#[test]
fn view_mode_labels() {
    assert_eq!(ViewMode::View2D.label(), "2D Top-Down");
    assert_eq!(ViewMode::View3D.label(), "3D View");
}

#[test]
fn modes_compare_by_variant() {
    assert_eq!(MachineMode::Plotter, MachineMode::Plotter);
    assert_ne!(MachineMode::Plotter, MachineMode::Printer3D);
    assert_ne!(ViewMode::View2D, ViewMode::View3D);
}
