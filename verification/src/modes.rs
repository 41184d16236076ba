use vstd::prelude::*;

verus! {

/// How moves are classified as drawing or travel.
#[derive(Clone, Copy, Debug, PartialEq, Eq, Structural)]
pub enum MachineMode {
    /// Z at or below the pen threshold draws.
    Plotter,
    /// An increase of the extruder value draws.
    Printer3D,
}

/// Which camera the viewport uses.
#[derive(Clone, Copy, Debug, PartialEq, Eq, Structural)]
pub enum ViewMode {
    View2D,
    View3D,
}

impl MachineMode {
    /// The text shown for this mode.
    pub open spec fn label_text(self) -> Seq<char> {
        match self {
            MachineMode::Plotter => "Pen Plotter"@,
            MachineMode::Printer3D => "3D Printer"@,
        }
    }

    pub fn label(&self) -> (r: &'static str)
        ensures
            r@ == self.label_text(),
    {
        match self {
            MachineMode::Plotter => "Pen Plotter",
            MachineMode::Printer3D => "3D Printer",
        }
    }
}

impl ViewMode {
    /// The text shown for this mode.
    pub open spec fn label_text(self) -> Seq<char> {
        match self {
            ViewMode::View2D => "2D Top-Down"@,
            ViewMode::View3D => "3D View"@,
        }
    }

    pub fn label(&self) -> (r: &'static str)
        ensures
            r@ == self.label_text(),
    {
        match self {
            ViewMode::View2D => "2D Top-Down",
            ViewMode::View3D => "3D View",
        }
    }
}

} // verus!
