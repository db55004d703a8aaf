//! Where the exchange-rate cache lives, and when it is stale.

use crate::text::{push_str, str_to_chars};
use vstd::prelude::*;

verus! {

/// `dir` with the relative component `c` appended, as `PathBuf::push` does
/// on Unix: an empty path becomes `c`; otherwise a `/` goes between them
/// unless `dir` already ends with one.
pub open spec fn path_join(dir: Seq<char>, c: Seq<char>) -> Seq<char> {
    if dir.len() == 0 {
        c
    } else if dir.last() == '/' {
        dir + c
    } else {
        dir + seq!['/'] + c
    }
}

/// The configuration directory under home directory `home`:
/// `home/.config/calki`.
pub open spec fn config_dir_spec(home: Seq<char>) -> Seq<char> {
    path_join(path_join(home, ".config"@), "calki"@)
}

fn push_component(path: &mut Vec<char>, c: &str)
    requires
        c@.len() > 0,
    ensures
        final(path)@ == path_join(old(path)@, c@),
{
    if path.len() > 0 && path[path.len() - 1] != '/' {
        path.push('/');
    }
    push_str(path, c);
}

fn config_dir_chars(home: &str) -> (p: Vec<char>)
    ensures
        p@ == config_dir_spec(home@),
{
    let mut p = str_to_chars(home);
    proof {
        reveal_strlit(".config");
        reveal_strlit("calki");
    }
    push_component(&mut p, ".config");
    push_component(&mut p, "calki");
    p
}

/// The configuration directory, given the `HOME` variable; `None` without
/// one.
pub fn get_config_path(home: Option<&str>) -> (r: Option<String>)
    ensures
        match home {
            Some(h) => r matches Some(p) && p@ == config_dir_spec(h@),
            None => r is None,
        },
{
    match home {
        Some(h) => {
            let p = config_dir_chars(h);
            Some(crate::text::chars_to_string(p.as_slice()))
        },
        None => None,
    }
}

/// The exchange-rate cache file, given the `HOME` variable:
/// `home/.config/calki/rates.json`; `None` without a home directory.
pub fn get_rates_file_path(home: Option<&str>) -> (r: Option<String>)
    ensures
        match home {
            Some(h) => r matches Some(p) && p@ == path_join(config_dir_spec(h@), "rates.json"@),
            None => r is None,
        },
{
    match home {
        Some(h) => {
            let mut p = config_dir_chars(h);
            proof {
                reveal_strlit("rates.json");
            }
            push_component(&mut p, "rates.json");
            Some(crate::text::chars_to_string(p.as_slice()))
        },
        None => None,
    }
}

/// The cache is refreshed when it was written more than a day (86400
/// seconds) ago, or when its age cannot be read.
pub fn rates_need_update(age_secs: Option<u64>) -> (r: bool)
    ensures
        r == match age_secs {
            Some(a) => a > 86400,
            None => true,
        },
{
    match age_secs {
        Some(a) => a > 86400,
        None => true,
    }
}

} // verus!
