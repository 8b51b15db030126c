//! XDG paths for the daemon's files, built from the environment's values
//! (which the application reads and hands in).
//!
//! Paths are joined as `PathBuf::push` joins them: an absolute component
//! replaces the path, otherwise it is appended after a `/` unless the path
//! is empty or already ends in one.

use vstd::prelude::*;

use crate::text::chars_of;

verus! {

/// The path is absolute (starts with `/`).
pub open spec fn is_absolute(p: Seq<char>) -> bool {
    p.len() > 0 && p[0] == '/'
}

/// `base` with `part` pushed onto it.
pub open spec fn path_join(base: Seq<char>, part: Seq<char>) -> Seq<char> {
    if is_absolute(part) {
        part
    } else if base.len() == 0 || base.last() == '/' {
        base + part
    } else {
        base + seq!['/'] + part
    }
}

/// `base` with each of `parts` pushed in turn.
pub open spec fn path_join_all(base: Seq<char>, parts: Seq<Seq<char>>) -> Seq<char>
    decreases parts.len(),
{
    if parts.len() == 0 {
        base
    } else {
        path_join(path_join_all(base, parts.drop_last()), parts.last())
    }
}

/// The XDG base directory: the variable's value when it is set and
/// absolute; else `$HOME` (empty when unset) with `home_fallback` pushed.
pub open spec fn xdg_spec(base_var: Option<Seq<char>>, home: Option<Seq<char>>, home_fallback: Seq<Seq<char>>) -> Seq<char> {
    match base_var {
        Some(v) if is_absolute(v) => v,
        _ => path_join_all(
            match home {
                Some(h) => h,
                None => Seq::empty(),
            },
            home_fallback,
        ),
    }
}

/// The separator pushing a relative component onto `base` inserts.
pub open spec fn dir_sep(base: Seq<char>) -> Seq<char> {
    if base.len() == 0 || base.last() == '/' { Seq::empty() } else { seq!['/'] }
}

/// The config file sits at `fadewire/config.toml` under its base directory,
/// and the state file at `fadewire/state.toml`.
pub proof fn lemma_file_under_base(base: Seq<char>)
    ensures
        path_join(path_join(base, "fadewire"@), "config.toml"@) == base + dir_sep(base)
            + "fadewire/config.toml"@,
        path_join(path_join(base, "fadewire"@), "state.toml"@) == base + dir_sep(base)
            + "fadewire/state.toml"@,
{
    reveal_strlit("fadewire");
    reveal_strlit("config.toml");
    reveal_strlit("state.toml");
    reveal_strlit("fadewire/config.toml");
    reveal_strlit("fadewire/state.toml");
    let inner = path_join(base, "fadewire"@);
    assert(inner =~= base + dir_sep(base) + "fadewire"@);
    assert(inner.last() == 'e');
    assert(path_join(inner, "config.toml"@) =~= base + dir_sep(base) + "fadewire/config.toml"@);
    assert(path_join(inner, "state.toml"@) =~= base + dir_sep(base) + "fadewire/state.toml"@);
}

/// Push `part` onto the path `base`.
pub fn join(base: String, part: &str) -> (r: String)
    ensures
        r@ == path_join(base@, part@),
{
    let pc = chars_of(part);
    if pc.len() > 0 && pc[0] == '/' {
        return String::from_str(part);
    }
    let bc = chars_of(base.as_str());
    let mut r = base;
    if bc.len() == 0 || bc[bc.len() - 1] == '/' {
        r.append(part);
    } else {
        proof {
            reveal_strlit("/");
        }
        r.append("/");
        r.append(part);
        proof {
            assert(r@ =~= bc@ + seq!['/'] + part@);
        }
    }
    r
}

/// The XDG base directory for `base_var` (its value, if set), falling back
/// to `home` (the value of `$HOME`, if set) with `home_fallback` pushed.
pub fn xdg(base_var: Option<&str>, home: Option<&str>, home_fallback: &[&str]) -> (r: String)
    ensures
        r@ == xdg_spec(
            match base_var {
                Some(v) => Some(v@),
                None => None,
            },
            match home {
                Some(h) => Some(h@),
                None => None,
            },
            home_fallback@.map_values(|p: &str| p@),
        ),
{
    if let Some(v) = base_var {
        let vc = chars_of(v);
        if vc.len() > 0 && vc[0] == '/' {
            return String::from_str(v);
        }
    }
    let mut p = match home {
        Some(h) => String::from_str(h),
        None => String::new(),
    };
    let ghost parts = home_fallback@.map_values(|p: &str| p@);
    let mut i: usize = 0;
    while i < home_fallback.len()
        invariant
            i <= home_fallback@.len(),
            parts == home_fallback@.map_values(|p: &str| p@),
            p@ == path_join_all(
                match home {
                    Some(h) => h@,
                    None => Seq::empty(),
                },
                parts.take(i as int),
            ),
        decreases home_fallback.len() - i,
    {
        proof {
            assert(parts.take(i + 1).drop_last() =~= parts.take(i as int));
        }
        p = join(p, home_fallback[i]);
        i += 1;
    }
    proof {
        assert(parts.take(i as int) =~= parts);
    }
    p
}

/// `$XDG_CONFIG_HOME/fadewire/config.toml` (usually `~/.config/fadewire/`),
/// given the values of `$XDG_CONFIG_HOME` and `$HOME`.
pub fn config(xdg_config_home: Option<&str>, home: Option<&str>) -> (r: String)
    ensures
        r@ == path_join(
            path_join(
                xdg_spec(
                    match xdg_config_home {
                        Some(v) => Some(v@),
                        None => None,
                    },
                    match home {
                        Some(h) => Some(h@),
                        None => None,
                    },
                    seq![".config"@],
                ),
                "fadewire"@,
            ),
            "config.toml"@,
        ),
{
    let fallback: [&str; 1] = [".config"];
    let fb: &[&str] = &fallback;
    proof {
        assert(fb@.map_values(|p: &str| p@) =~= seq![".config"@]);
    }
    let base = xdg(xdg_config_home, home, fb);
    let r = join(join(base, "fadewire"), "config.toml");
    r
}

/// `$XDG_STATE_HOME/fadewire/state.toml` (usually `~/.local/state/fadewire/`),
/// given the values of `$XDG_STATE_HOME` and `$HOME`.
pub fn state(xdg_state_home: Option<&str>, home: Option<&str>) -> (r: String)
    ensures
        r@ == path_join(
            path_join(
                xdg_spec(
                    match xdg_state_home {
                        Some(v) => Some(v@),
                        None => None,
                    },
                    match home {
                        Some(h) => Some(h@),
                        None => None,
                    },
                    seq![".local"@, "state"@],
                ),
                "fadewire"@,
            ),
            "state.toml"@,
        ),
{
    let fallback: [&str; 2] = [".local", "state"];
    let fb: &[&str] = &fallback;
    proof {
        assert(fb@.map_values(|p: &str| p@) =~= seq![".local"@, "state"@]);
    }
    let base = xdg(xdg_state_home, home, fb);
    join(join(base, "fadewire"), "state.toml")
}

} // verus!
