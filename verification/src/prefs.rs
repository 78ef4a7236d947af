//! Where an application keeps its preferences.
//!
//! The configuration directory is `$XDG_CONFIG_HOME/<app>` when that
//! variable is set, `$HOME/.config/<app>` when only `HOME` is, and
//! `./<app>` otherwise. Reading the environment, and the JSON files kept
//! there, is left to the caller; this module decides the directory from the
//! values read.

use vstd::prelude::*;

verus! {

/// The path that `std::path::Path::join` makes of `base` and `part`.
pub uninterp spec fn joined_path(base: Seq<char>, part: Seq<char>) -> Seq<char>;

/// `Path::new(base).join(part)`, as a string. Joining two UTF-8 paths
/// gives a UTF-8 path, so nothing is lost in the conversion back.
#[verifier::external_body]
fn path_join(base: &str, part: &str) -> (r: String)
    ensures
        r@ == joined_path(base@, part@),
{
    std::path::Path::new(base).join(part).to_string_lossy().into_owned()
}

/// The directory under which configuration lives, from the values of
/// `XDG_CONFIG_HOME` and `HOME` (each `None` where unset).
pub open spec fn config_base(xdg_config_home: Option<Seq<char>>, home: Option<Seq<char>>) -> Seq<char> {
    match xdg_config_home {
        Some(x) => x,
        None => match home {
            Some(h) => joined_path(h, seq!['.', 'c', 'o', 'n', 'f', 'i', 'g']),
            None => seq!['.'],
        },
    }
}

/// The view of an optional string.
pub open spec fn opt_view(s: Option<&str>) -> Option<Seq<char>> {
    match s {
        Some(v) => Some(v@),
        None => None,
    }
}

/// The configuration directory of `app_name`, given the values of the
/// environment variables `XDG_CONFIG_HOME` and `HOME` (`None` where unset):
/// the first that is set, with `.config` below `HOME`, or `.` when neither
/// is, joined with the application's name.
pub fn config_dir_from(xdg_config_home: Option<&str>, home: Option<&str>, app_name: &str) -> (r: String)
    ensures
        r@ == joined_path(config_base(opt_view(xdg_config_home), opt_view(home)), app_name@),
{
    let base: String = match xdg_config_home {
        Some(x) => x.to_string(),
        None => match home {
            Some(h) => {
                let dot_config = ".config";
                proof {
                    reveal_strlit(".config");
                    assert(dot_config@ =~= seq!['.', 'c', 'o', 'n', 'f', 'i', 'g']);
                }
                path_join(h, dot_config)
            },
            None => {
                let dot = ".";
                proof {
                    reveal_strlit(".");
                    assert(dot@ =~= seq!['.']);
                }
                dot.to_string()
            },
        },
    };
    path_join(base.as_str(), app_name)
}

} // verus!
