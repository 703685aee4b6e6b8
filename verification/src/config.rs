//! Where the data lives and the few settings the core reads at startup.
//!
//! The data directory is chosen by priority (first hit wins): the
//! `--data-dir` command-line flag, the `ZAPX_DATA_DIR` environment variable,
//! a `portable` marker next to the executable (data in `<exe_dir>/data`), the
//! pointer file written by the "Data folder" setting, and the platform
//! default. Finding each candidate is the caller's I/O; choosing among them
//! is here.
use vstd::prelude::*;
use crate::text::{
    owned, parse_u64_range, parse_uint, starts_with, string_from_range, to_chars, trim, trim_range,
};

verus! {

/// Name of the pointer file in the OS config directory.
pub const POINTER_FILE: &'static str = "data-dir.txt";

/// Stable vault seed of portable installs.
pub const PORTABLE_VAULT_SEED: &'static str = "zapx-portable-v1";

/// How the data directory was chosen.
#[derive(Debug, Clone, Copy, PartialEq, Eq, Structural)]
pub enum Source {
    CliFlag,
    EnvVar,
    Portable,
    Pointer,
    Default,
}

/// The data directory in use and how it was chosen.
#[derive(Debug, Clone)]
pub struct DataDir {
    /// The directory, as text.
    pub dir: String,
    pub source: Source,
}

impl DataDir {
    /// Whether the data travels with the executable.
    pub fn is_portable(&self) -> (b: bool)
        ensures
            b == (self.source == Source::Portable),
    {
        self.source == Source::Portable
    }

    /// Seed for the encrypted fallback secrets: a constant in portable mode
    /// (the path changes between machines), else the directory's path.
    pub fn vault_seed(&self) -> (r: String)
        ensures
            r@ == (if self.source == Source::Portable {
                PORTABLE_VAULT_SEED@
            } else {
                self.dir@
            }),
    {
        if self.is_portable() {
            owned(PORTABLE_VAULT_SEED)
        } else {
            self.dir.clone()
        }
    }
}

/// What the "Data folder" settings page shows.
#[derive(Debug, Clone)]
pub struct DataDirInfo {
    pub path: String,
    pub source: Source,
    pub portable: bool,
    pub default_path: String,
    /// Whether the UI may change the folder: not when a flag, the
    /// environment or the portable marker forces it.
    pub changeable: bool,
}

/// The settings page's view of `data_dir`, with the platform default path.
pub fn data_dir_info(data_dir: &DataDir, default_path: String) -> (r: DataDirInfo)
    ensures
        r.path@ == data_dir.dir@,
        r.source == data_dir.source,
        r.portable == (data_dir.source == Source::Portable),
        r.default_path@ == default_path@,
        r.changeable == (data_dir.source == Source::Pointer || data_dir.source == Source::Default),
{
    DataDirInfo {
        path: data_dir.dir.clone(),
        source: data_dir.source,
        portable: data_dir.is_portable(),
        default_path,
        changeable: data_dir.source == Source::Pointer || data_dir.source == Source::Default,
    }
}

/// The value of `--data-dir=<v>` or `--data-dir <v>` among `args` (program
/// name excluded): the first such flag decides, an empty value gives none.
pub open spec fn cli_data_dir_from(args: Seq<Seq<char>>) -> Option<Seq<char>>
    decreases args.len(),
{
    if args.len() == 0 {
        None
    } else {
        let a = args[0];
        if starts_with(a, "--data-dir="@) {
            if a.len() > 11 {
                Some(a.skip(11))
            } else {
                cli_data_dir_from(args.drop_first())
            }
        } else if a == "--data-dir"@ {
            if args.len() > 1 && args[1].len() > 0 {
                Some(args[1])
            } else {
                None
            }
        } else {
            cli_data_dir_from(args.drop_first())
        }
    }
}

/// The `--data-dir` flag's value, if given.
pub fn cli_data_dir(args: &Vec<String>) -> (r: Option<String>)
    ensures
        crate::model::opt_str(r) == cli_data_dir_from(crate::model::str_views(args@)),
{
    let ghost av = crate::model::str_views(args@);
    proof {
        reveal_strlit("--data-dir=");
        reveal_strlit("--data-dir");
    }
    let mut i: usize = 0;
    assert(av.skip(0) =~= av);
    while i < args.len()
        invariant
            i <= args@.len(),
            av == crate::model::str_views(args@),
            cli_data_dir_from(av) == cli_data_dir_from(av.skip(i as int)),
        decreases args.len() - i,
    {
        let ghost rest = av.skip(i as int);
        assert(rest[0] == args@[i as int]@);
        assert(rest.drop_first() =~= av.skip(i + 1));
        let c = to_chars(args[i].as_str());
        let n = c.len();
        assert(c@.subrange(0, n as int) =~= c@);
        if crate::text::range_starts_with(&c, 0, n, &to_chars("--data-dir=")) {
            if n > 11 {
                assert(c@.skip(11) =~= c@.subrange(11, n as int));
                return Some(string_from_range(&c, 11, n));
            }
        } else if crate::text::chars_eq(&c, &to_chars("--data-dir")) {
            if i + 1 < args.len() {
                assert(rest[1] == args@[i + 1]@);
                if to_chars(args[i + 1].as_str()).len() > 0 {
                    return Some(args[i + 1].clone());
                }
            }
            return None;
        }
        i = i + 1;
    }
    None
}

/// A directory named by text (the environment variable or the pointer
/// file): trimmed, and none when empty.
pub open spec fn named_dir(v: Seq<char>) -> Option<Seq<char>> {
    if trim(v).len() > 0 {
        Some(trim(v))
    } else {
        None
    }
}

/// The directory named by `ZAPX_DATA_DIR`'s value or the pointer file's text.
pub fn dir_from_text(v: &str) -> (r: Option<String>)
    ensures
        crate::model::opt_str(r) == named_dir(v@),
{
    let c = to_chars(v);
    let (a, b) = trim_range(&c, 0, c.len());
    assert(c@.subrange(0, c@.len() as int) =~= c@);
    if a == b {
        None
    } else {
        Some(string_from_range(&c, a, b))
    }
}

/// The data directory by priority: flag, environment, portable marker,
/// pointer file, platform default.
pub fn choose_data_dir(
    cli: Option<String>,
    env: Option<String>,
    portable: Option<String>,
    pointer: Option<String>,
    default_dir: String,
) -> (r: DataDir)
    ensures
        r.source == (if cli is Some {
            Source::CliFlag
        } else if env is Some {
            Source::EnvVar
        } else if portable is Some {
            Source::Portable
        } else if pointer is Some {
            Source::Pointer
        } else {
            Source::Default
        }),
        r.dir@ == (match (cli, env, portable, pointer) {
            (Some(d), _, _, _) => d@,
            (None, Some(d), _, _) => d@,
            (None, None, Some(d), _) => d@,
            (None, None, None, Some(d)) => d@,
            _ => default_dir@,
        }),
{
    match cli {
        Some(d) => DataDir { dir: d, source: Source::CliFlag },
        None => match env {
            Some(d) => DataDir { dir: d, source: Source::EnvVar },
            None => match portable {
                Some(d) => DataDir { dir: d, source: Source::Portable },
                None => match pointer {
                    Some(d) => DataDir { dir: d, source: Source::Pointer },
                    None => DataDir { dir: default_dir, source: Source::Default },
                },
            },
        },
    }
}

// ---------------------------------------------------------------------------
// SSH keepalive
// ---------------------------------------------------------------------------

/// Settings key of the SSH keepalive interval (seconds; `0` disables).
pub const SSH_KEEPALIVE_KEY: &'static str = "ssh.keepalive_secs";

/// Keepalive interval when the setting is absent.
pub const SSH_KEEPALIVE_DEFAULT: u64 = 60;

/// The keepalive interval a stored setting gives: its value when it parses
/// as `u64`, else the default.
pub open spec fn keepalive_of(setting: Option<Seq<char>>) -> u64 {
    match setting {
        Some(v) => match parse_uint(v, 10, u64::MAX as nat) {
            Some(n) => n as u64,
            None => SSH_KEEPALIVE_DEFAULT,
        },
        None => SSH_KEEPALIVE_DEFAULT,
    }
}

/// The keepalive interval to apply at startup from the stored setting.
pub fn apply_persisted_keepalive(setting: Option<String>) -> (secs: u64)
    ensures
        secs == keepalive_of(crate::model::opt_str(setting)),
{
    match setting {
        Some(v) => {
            let c = to_chars(v.as_str());
            assert(c@.subrange(0, c@.len() as int) =~= c@);
            match parse_u64_range(&c, 0, c.len()) {
                Some(n) => n,
                None => SSH_KEEPALIVE_DEFAULT,
            }
        },
        None => SSH_KEEPALIVE_DEFAULT,
    }
}

/// A requested keepalive interval, capped at an hour.
pub fn clamp_keepalive(secs: u64) -> (r: u64)
    ensures
        r == (if secs < 3600 {
            secs
        } else {
            3600
        }),
{
    if secs < 3600 {
        secs
    } else {
        3600
    }
}

} // verus!
