use vstd::prelude::*;

verus! {

/// The command line: one command.
pub struct Args {
    pub cmd: Commands,
}

/// What the program is asked to do: install every file of the manifest, or add one mod to it.
pub enum Commands {
    Install,
    Add { mod_id: u32 },
}

} // verus!
