//! The named commands a keyboard shortcut can be bound to.

use vstd::prelude::*;

verus! {

/// The commands the host application binds shortcuts to. `NoCommand`
/// stands for an unbound slot.
#[derive(Debug, PartialEq, Eq, Clone, Copy, Structural, Hash)]
pub enum KeyCommand {
    SaveScreenshot,
    QuickSaveScreenshot,
    TakeScreenshot,
    Edit,
    Copy,
    NoCommand,
}

impl KeyCommand {
    /// The label shown for the command.
    pub fn to_string(&self) -> (r: String)
        ensures
            *self == KeyCommand::Edit ==> r@ == "Edit"@,
            *self == KeyCommand::SaveScreenshot ==> r@ == "Save Screenshot"@,
            *self == KeyCommand::TakeScreenshot ==> r@ == "Take Screenshot"@,
            *self == KeyCommand::QuickSaveScreenshot ==> r@ == "Quick Screenshot"@,
            *self == KeyCommand::NoCommand ==> r@ == "None"@,
            *self == KeyCommand::Copy ==> r@ == "Copy"@,
    {
        match self {
            KeyCommand::Edit => "Edit".to_owned(),
            KeyCommand::SaveScreenshot => "Save Screenshot".to_owned(),
            KeyCommand::TakeScreenshot => "Take Screenshot".to_owned(),
            KeyCommand::QuickSaveScreenshot => "Quick Screenshot".to_owned(),
            KeyCommand::NoCommand => "None".to_owned(),
            KeyCommand::Copy => "Copy".to_owned(),
        }
    }
}

} // verus!
