//! Where the two backing files live.
use vstd::prelude::*;

verus! {

/// The directory that holds the backing files, in order of preference: the
/// directory given on the command line; `$XDG_CONFIG_HOME/dots`, given here
/// only when it exists; `~/.config/dots`, given here only when it exists;
/// else the current directory.
pub fn resolve_config_dir(
    explicit: Option<String>,
    xdg_dots: Option<String>,
    home_dots: Option<String>,
    current: String,
) -> (r: String)
    ensures
        r@ == match explicit {
            Some(d) => d@,
            None => match xdg_dots {
                Some(d) => d@,
                None => match home_dots {
                    Some(d) => d@,
                    None => current@,
                },
            },
        },
{
    match explicit {
        Some(d) => d,
        None => match xdg_dots {
            Some(d) => d,
            None => match home_dots {
                Some(d) => d,
                None => current,
            },
        },
    }
}

} // verus!
