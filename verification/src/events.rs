//! The event by which a backup is asked for.
use vstd::prelude::*;

verus! {

/// The events of the backup plugin.
#[derive(Debug, Clone, Copy, PartialEq, Eq, Hash, Structural)]
pub enum BackupEvent {
    BackupWorkspace,
}

/// What comes with the event [`BackupEvent::BackupWorkspace`]: nothing. In particular no path:
/// where the snapshot is kept is for the backup alone to say.
#[derive(Debug, Clone, Copy, PartialEq, Eq, Structural)]
pub struct BackupWorkspacePB {}

impl Default for BackupWorkspacePB {
    fn default() -> (input: BackupWorkspacePB)
        ensures
            input == (BackupWorkspacePB {  }),
    {
        BackupWorkspacePB {  }
    }
}

/// The name under which the backup plugin is registered.
pub open spec fn plugin_name_chars() -> Seq<char> {
    "Flowy-Backup"@
}

/// The name under which the backup plugin is registered.
pub fn plugin_name() -> (name: String)
    ensures
        name@ == plugin_name_chars(),
{
    "Flowy-Backup".to_owned()
}

impl BackupEvent {
    /// The number by which the event is known outside.
    pub fn code(&self) -> (code: u8)
        ensures
            code == 0,
    {
        match self {
            BackupEvent::BackupWorkspace => 0,
        }
    }

    /// The name of the event.
    pub fn name(&self) -> (name: String)
        ensures
            name@ == "BackupWorkspace"@,
    {
        match self {
            BackupEvent::BackupWorkspace => "BackupWorkspace".to_owned(),
        }
    }
}

} // verus!
