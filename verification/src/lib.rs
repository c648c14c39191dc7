pub mod config;
pub mod data;
pub mod layout;
pub mod order;
pub mod decimal;
pub mod text;

use vstd::prelude::*;

verus! {

/// A message from the interactive front end to the driver loop, naming
/// the action the user asked for.
#[derive(Clone, Copy, PartialEq, Eq, Structural, Debug)]
pub enum InterfaceMessage {
    /// The user wants the selected input files processed into the output file.
    Process,
    /// The user wants to close the program.
    AppClosing,
    /// The user wants the configuration reset to its default value.
    ConfigReset,
}

} // verus!
