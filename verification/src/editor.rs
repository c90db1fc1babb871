//! Which external editor edits a page.
use vstd::prelude::*;

verus! {

/// The editor command: the settings' override, else `$EDITOR` (`env_editor`),
/// else `vi`.
pub fn editor_command(override_: Option<&str>, env_editor: Option<String>) -> (r: String)
    ensures
        r@ == match override_ {
            Some(o) => o@,
            None => match env_editor {
                Some(e) => e@,
                None => "vi"@,
            },
        },
{
    match override_ {
        Some(o) => o.to_owned(),
        None => match env_editor {
            Some(e) => e,
            None => "vi".to_owned(),
        },
    }
}

} // verus!
