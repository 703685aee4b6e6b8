//! SecureCRT → native export envelope.
//!
//! SecureCRT keeps each session as a VanDyke INI file under its
//! `Config/Sessions/` tree; subdirectories are the session folders. The
//! caller walks that tree and hands each subdirectory and each session
//! file's text to an [`ScrtImport`].
//!
//! VanDyke INI lines are typed: `S:"Key"=string`, `D:"Key"=hex dword`.
//! Keys read: `Protocol Name` (SSH2/SSH1 → ssh, Telnet, Serial),
//! `Hostname`, `Username`, any dword key ending in `Port`,
//! `Identity Filename V2` / `Identity Filename` (key auth), and
//! `Serial Port` (or `Port`) with `Baud Rate` for serial sessions.
use vstd::prelude::*;
use crate::importers::common::{self, decimal, serial_options, session_spec, Auth, AuthView, Parsed};
use crate::importers::mobaxterm::{opt_session, push_warning, Decoded};
use crate::model::{folder_views, opt_str, str_views, Folder, FolderView, SavedSession, SessionView, session_views};
use crate::text::{
    concat3, ends_with, find_char, lines, lower_range, lower_seq, next_line, owned, parse_u32_range,
    parse_uint, push_str, starts_with, string_from_range, to_chars, trim, trim_char,
    trim_end_char_range, trim_range, trim_start_char_range,
};

verus! {

// ---------------------------------------------------------------------------
// Typed INI lines
// ---------------------------------------------------------------------------

/// A typed line `<type>:"<key>"=<value>` as `(type, key, value)`.
pub open spec fn scrt_line(raw: Seq<char>) -> Option<(Seq<char>, Seq<char>, Seq<char>)> {
    let l = trim(raw);
    let c = crate::text::find_from(l, ':', 0);
    if c >= l.len() {
        None
    } else {
        let rest = l.skip(c + 1);
        let e = crate::text::find_from(rest, '=', 0);
        if e >= rest.len() {
            None
        } else {
            Some((trim(l.take(c)), trim_char(trim(rest.take(e)), '"'), rest.skip(e + 1)))
        }
    }
}

/// Index of key `k` in an association list.
pub open spec fn key_index<V>(m: Seq<(Seq<char>, V)>, k: Seq<char>, from: int) -> Option<int>
    decreases m.len() - from,
{
    if from < 0 || from >= m.len() {
        None
    } else if m[from].0 == k {
        Some(from)
    } else {
        key_index(m, k, from + 1)
    }
}

/// The value of key `k`.
pub open spec fn map_get<V>(m: Seq<(Seq<char>, V)>, k: Seq<char>) -> Option<V> {
    match key_index(m, k, 0) {
        Some(i) => Some(m[i].1),
        None => None,
    }
}

/// Sets key `k` to `v` (a new key goes last).
pub open spec fn map_insert<V>(m: Seq<(Seq<char>, V)>, k: Seq<char>, v: V) -> Seq<(Seq<char>, V)> {
    match key_index(m, k, 0) {
        Some(i) => m.update(i, (k, v)),
        None => m.push((k, v)),
    }
}

/// The string and dword values of a session file.
pub struct ScrtValues {
    pub strings: Seq<(Seq<char>, Seq<char>)>,
    pub dwords: Seq<(Seq<char>, u32)>,
}

/// One line: `S` lines set a string, `D` lines with a hex value a dword;
/// anything else is ignored.
pub open spec fn scrt_step(st: ScrtValues, raw: Seq<char>) -> ScrtValues {
    match scrt_line(raw) {
        None => st,
        Some((t, k, v)) => if t == "S"@ {
            ScrtValues { strings: map_insert(st.strings, k, trim(v)), ..st }
        } else if t == "D"@ {
            match parse_uint(trim(v), 16, 0xffff_ffff) {
                Some(n) => ScrtValues { dwords: map_insert(st.dwords, k, n as u32), ..st },
                None => st,
            }
        } else {
            st
        },
    }
}

/// Folds `scrt_step` over lines.
pub open spec fn scrt_fold(st: ScrtValues, ls: Seq<Seq<char>>) -> ScrtValues
    decreases ls.len(),
{
    if ls.len() == 0 {
        st
    } else {
        scrt_fold(scrt_step(st, ls[0]), ls.drop_first())
    }
}

/// The values of a session file's text.
pub open spec fn scrt_values(content: Seq<char>) -> ScrtValues {
    scrt_fold(ScrtValues { strings: Seq::empty(), dwords: Seq::empty() }, lines(content))
}

/// The first dword whose key ends in `Port`.
pub open spec fn first_port(ds: Seq<(Seq<char>, u32)>, from: int) -> Option<u32>
    decreases ds.len() - from,
{
    if from < 0 || from >= ds.len() {
        None
    } else if ends_with(ds[from].0, "Port"@) {
        Some(ds[from].1)
    } else {
        first_port(ds, from + 1)
    }
}

/// A non-empty value.
pub open spec fn non_empty(o: Option<Seq<char>>) -> Option<Seq<char>> {
    match o {
        Some(s) => if s.len() > 0 {
            Some(s)
        } else {
            None
        },
        None => None,
    }
}

/// The first of two optional values that is present.
pub open spec fn or_else(a: Option<Seq<char>>, b: Option<Seq<char>>) -> Option<Seq<char>> {
    if a is Some {
        a
    } else {
        b
    }
}

/// Decodes session file `name` (its text `content`) in `folder_id`.
pub open spec fn scrt_decode(name: Seq<char>, content: Seq<char>, folder_id: Option<i64>, next_id: int) -> Decoded {
    let vals = scrt_values(content);
    let ss = vals.strings;
    let ds = vals.dwords;
    let pn = match map_get(ss, "Protocol Name"@) {
        Some(p) => lower_seq(p),
        None => Seq::empty(),
    };
    let protocol: Option<Seq<char>> = if starts_with(pn, "ssh"@) {
        Some("ssh"@)
    } else if pn == "telnet"@ {
        Some("telnet"@)
    } else if pn == "serial"@ {
        Some("serial"@)
    } else if pn.len() == 0 && map_get(ss, "Hostname"@) is Some {
        Some("ssh"@)
    } else {
        None
    };
    let port: Option<u16> = match first_port(ds, 0) {
        Some(v) => if v <= 0xffff {
            Some(v as u16)
        } else {
            None
        },
        None => None,
    };
    match protocol {
        None => Decoded {
            row: None,
            warnings: seq![
                if pn.len() == 0 {
                    "«"@ + name + "»: sin protocolo ni host — omitida"@
                } else {
                    "«"@ + name + "»: protocolo «"@ + pn + "» no soportado — omitida"@
                },
            ],
            next_id,
        },
        Some(protocol) => if protocol == "serial"@ {
            let device = match or_else(map_get(ss, "Serial Port"@), map_get(ss, "Port"@)) {
                Some(d) => d,
                None => Seq::empty(),
            };
            if device.len() == 0 {
                Decoded { row: None, warnings: seq!["«"@ + name + "»: serial sin puerto — omitida"@], next_id }
            } else {
                let id = next_id + 1;
                let baud: u32 = match map_get(ds, "Baud Rate"@) {
                    Some(b) => b,
                    None => 9600,
                };
                let base = session_spec(
                    id as i64,
                    folder_id,
                    name,
                    "serial"@,
                    None,
                    None,
                    None,
                    AuthView::Password,
                    (id - 1) as i64,
                );
                Decoded {
                    row: Some(SessionView { options_json: serial_options(device, decimal(baud as nat)), ..base }),
                    warnings: Seq::empty(),
                    next_id: id,
                }
            }
        } else {
            match non_empty(map_get(ss, "Hostname"@)) {
                None => Decoded { row: None, warnings: seq!["«"@ + name + "»: sin Hostname — omitida"@], next_id },
                Some(host) => {
                    let id = next_id + 1;
                    let auth = if protocol == "ssh"@ {
                        match non_empty(or_else(map_get(ss, "Identity Filename V2"@), map_get(ss, "Identity Filename"@))) {
                            Some(k) => AuthView::Key(k),
                            None => AuthView::Agent,
                        }
                    } else {
                        AuthView::Password
                    };
                    Decoded {
                        row: Some(
                            session_spec(
                                id as i64,
                                folder_id,
                                name,
                                protocol,
                                Some(host),
                                Some(
                                    match port {
                                        Some(p) => p,
                                        None => if protocol == "telnet"@ {
                                            23u16
                                        } else {
                                            22u16
                                        },
                                    },
                                ),
                                non_empty(map_get(ss, "Username"@)),
                                auth,
                                (id - 1) as i64,
                            ),
                        ),
                        warnings: Seq::empty(),
                        next_id: id,
                    }
                },
            }
        },
    }
}

// ---------------------------------------------------------------------------
// Executable decoding
// ---------------------------------------------------------------------------

/// The views of string entries.
pub open spec fn string_entries(m: Seq<(String, String)>) -> Seq<(Seq<char>, Seq<char>)> {
    Seq::new(m.len(), |i: int| (m[i].0@, m[i].1@))
}

/// The views of dword entries.
pub open spec fn dword_entries(m: Seq<(String, u32)>) -> Seq<(Seq<char>, u32)> {
    Seq::new(m.len(), |i: int| (m[i].0@, m[i].1))
}

fn insert_string(m: &mut Vec<(String, String)>, k: String, v: String)
    ensures
        string_entries(final(m)@) == map_insert(string_entries(old(m)@), k@, v@),
{
    let ghost mv = string_entries(m@);
    let kc = to_chars(k.as_str());
    let mut i: usize = 0;
    while i < m.len()
        invariant
            i <= m@.len(),
            m@ == old(m)@,
            mv == string_entries(m@),
            kc@ == k@,
            key_index(mv, k@, 0) == key_index(mv, k@, i as int),
        decreases m.len() - i,
    {
        assert(mv[i as int].0 == m@[i as int].0@);
        if crate::text::chars_eq(&to_chars(m[i].0.as_str()), &kc) {
            let ghost kv = k@;
            let ghost vv = v@;
            m.set(i, (k, v));
            assert(string_entries(m@) =~= mv.update(i as int, (kv, vv)));
            return;
        }
        i = i + 1;
    }
    let ghost kv = k@;
    let ghost vv = v@;
    m.push((k, v));
    assert(string_entries(m@) =~= mv.push((kv, vv)));
}

fn insert_dword(m: &mut Vec<(String, u32)>, k: String, v: u32)
    ensures
        dword_entries(final(m)@) == map_insert(dword_entries(old(m)@), k@, v),
{
    let ghost mv = dword_entries(m@);
    let kc = to_chars(k.as_str());
    let mut i: usize = 0;
    while i < m.len()
        invariant
            i <= m@.len(),
            m@ == old(m)@,
            mv == dword_entries(m@),
            kc@ == k@,
            key_index(mv, k@, 0) == key_index(mv, k@, i as int),
        decreases m.len() - i,
    {
        assert(mv[i as int].0 == m@[i as int].0@);
        if crate::text::chars_eq(&to_chars(m[i].0.as_str()), &kc) {
            let ghost kv = k@;
            m.set(i, (k, v));
            assert(dword_entries(m@) =~= mv.update(i as int, (kv, v)));
            return;
        }
        i = i + 1;
    }
    let ghost kv = k@;
    m.push((k, v));
    assert(dword_entries(m@) =~= mv.push((kv, v)));
}

fn get_string(m: &Vec<(String, String)>, k: &str) -> (r: Option<String>)
    ensures
        opt_str(r) == map_get(string_entries(m@), k@),
{
    let ghost mv = string_entries(m@);
    let kc = to_chars(k);
    let mut i: usize = 0;
    while i < m.len()
        invariant
            i <= m@.len(),
            mv == string_entries(m@),
            kc@ == k@,
            key_index(mv, k@, 0) == key_index(mv, k@, i as int),
        decreases m.len() - i,
    {
        assert(mv[i as int] == (m@[i as int].0@, m@[i as int].1@));
        if crate::text::chars_eq(&to_chars(m[i].0.as_str()), &kc) {
            return Some(m[i].1.clone());
        }
        i = i + 1;
    }
    None
}

fn get_dword(m: &Vec<(String, u32)>, k: &str) -> (r: Option<u32>)
    ensures
        r == map_get(dword_entries(m@), k@),
{
    let ghost mv = dword_entries(m@);
    let kc = to_chars(k);
    let mut i: usize = 0;
    while i < m.len()
        invariant
            i <= m@.len(),
            mv == dword_entries(m@),
            kc@ == k@,
            key_index(mv, k@, 0) == key_index(mv, k@, i as int),
        decreases m.len() - i,
    {
        assert(mv[i as int] == (m@[i as int].0@, m@[i as int].1));
        if crate::text::chars_eq(&to_chars(m[i].0.as_str()), &kc) {
            return Some(m[i].1);
        }
        i = i + 1;
    }
    None
}

fn first_port_exec(m: &Vec<(String, u32)>) -> (r: Option<u32>)
    ensures
        r == first_port(dword_entries(m@), 0),
{
    let ghost mv = dword_entries(m@);
    let suffix = to_chars("Port");
    let mut i: usize = 0;
    while i < m.len()
        invariant
            i <= m@.len(),
            mv == dword_entries(m@),
            suffix@ == "Port"@,
            first_port(mv, 0) == first_port(mv, i as int),
        decreases m.len() - i,
    {
        assert(mv[i as int] == (m@[i as int].0@, m@[i as int].1));
        let kc = to_chars(m[i].0.as_str());
        assert(kc@.subrange(0, kc@.len() as int) =~= kc@);
        if crate::text::range_ends_with(&kc, 0, kc.len(), &suffix) {
            return Some(m[i].1);
        }
        i = i + 1;
    }
    None
}

/// Executable `scrt_step` on line `c[lo..hi]`.
fn scrt_step_exec(ss: &mut Vec<(String, String)>, ds: &mut Vec<(String, u32)>, c: &Vec<char>, lo: usize, hi: usize)
    requires
        lo <= hi <= c@.len(),
    ensures
        (ScrtValues { strings: string_entries(final(ss)@), dwords: dword_entries(final(ds)@) }) == scrt_step(
            ScrtValues { strings: string_entries(old(ss)@), dwords: dword_entries(old(ds)@) },
            c@.subrange(lo as int, hi as int),
        ),
{
    let (a, b) = trim_range(c, lo, hi);
    let ghost l = c@.subrange(a as int, b as int);
    let cpos = find_char(c, ':', a, b);
    if cpos == b {
        return;
    }
    let ghost rest = l.skip(cpos - a + 1);
    assert(rest =~= c@.subrange(cpos + 1, b as int));
    let e = find_char(c, '=', cpos + 1, b);
    if e == b {
        return;
    }
    assert(l.take(cpos - a) =~= c@.subrange(a as int, cpos as int));
    assert(rest.take(e - cpos - 1) =~= c@.subrange(cpos + 1, e as int));
    assert(rest.skip(e - cpos) =~= c@.subrange(e + 1, b as int));
    let (ta, tb) = trim_range(c, a, cpos);
    let (ka, kb) = trim_range(c, cpos + 1, e);
    let ka2 = trim_start_char_range(c, ka, kb, '"');
    let kb2 = trim_end_char_range(c, ka2, kb, '"');
    let (va, vb) = trim_range(c, e + 1, b);
    if crate::text::range_is(c, ta, tb, "S") {
        insert_string(ss, string_from_range(c, ka2, kb2), string_from_range(c, va, vb));
    } else if crate::text::range_is(c, ta, tb, "D") {
        match parse_u32_range(c, va, vb, 16) {
            Some(n) => insert_dword(ds, string_from_range(c, ka2, kb2), n),
            None => {},
        }
    }
}

/// The string and dword values of a session file's text.
fn scrt_values_exec(content: &str) -> (r: (Vec<(String, String)>, Vec<(String, u32)>))
    ensures
        (ScrtValues { strings: string_entries(r.0@), dwords: dword_entries(r.1@) }) == scrt_values(content@),
{
    let c = to_chars(content);
    let n = c.len();
    let mut ss: Vec<(String, String)> = Vec::new();
    let mut ds: Vec<(String, u32)> = Vec::new();
    let mut pos: usize = 0;
    assert(c@.skip(0) =~= c@);
    assert(string_entries(ss@) =~= Seq::<(Seq<char>, Seq<char>)>::empty());
    assert(dword_entries(ds@) =~= Seq::<(Seq<char>, u32)>::empty());
    while pos < n
        invariant
            n == c@.len(),
            c@ == content@,
            pos <= n,
            scrt_values(content@) == scrt_fold(
                ScrtValues { strings: string_entries(ss@), dwords: dword_entries(ds@) },
                lines(c@.skip(pos as int)),
            ),
        decreases n - pos,
    {
        let (a, b, nx) = next_line(&c, pos);
        let ghost l = c@.subrange(a as int, b as int);
        let ghost rest = lines(c@.skip(nx as int));
        assert((seq![l] + rest).drop_first() =~= rest);
        assert((seq![l] + rest)[0] == l);
        scrt_step_exec(&mut ss, &mut ds, &c, a, b);
        pos = nx;
    }
    assert(c@.skip(n as int) =~= Seq::<char>::empty());
    (ss, ds)
}

fn non_empty_exec(o: Option<String>) -> (r: Option<String>)
    ensures
        opt_str(r) == non_empty(opt_str(o)),
{
    match o {
        Some(s) => if to_chars(s.as_str()).len() > 0 {
            Some(s)
        } else {
            None
        },
        None => None,
    }
}

fn or_else_exec(a: Option<String>, b: Option<String>) -> (r: Option<String>)
    ensures
        opt_str(r) == or_else(opt_str(a), opt_str(b)),
{
    match a {
        Some(x) => Some(x),
        None => b,
    }
}

/// Decodes session file `name` (text `content`) in folder `folder_id`:
/// the row, if the file describes a supported session, with ids continuing
/// from `next_id`; warnings are appended.
pub fn decode_session(
    name: &str,
    content: &str,
    folder_id: Option<i64>,
    next_id: &mut i64,
    warnings: &mut Vec<String>,
) -> (r: Option<SavedSession>)
    requires
        0 <= *old(next_id) < 0x7fff_ffff_ffff_ffff,
    ensures
        opt_session(r) == scrt_decode(name@, content@, folder_id, *old(next_id) as int).row,
        *final(next_id) as int == scrt_decode(name@, content@, folder_id, *old(next_id) as int).next_id,
        str_views(final(warnings)@) == str_views(old(warnings)@) + scrt_decode(
            name@,
            content@,
            folder_id,
            *old(next_id) as int,
        ).warnings,
{
    proof {
        reveal_strlit("ssh");
        reveal_strlit("telnet");
        reveal_strlit("serial");
    }
    let ghost d = scrt_decode(name@, content@, folder_id, *next_id as int);
    let ghost w0 = str_views(warnings@);
    assert(w0 + Seq::<Seq<char>>::empty() =~= w0);
    let (ss, ds) = scrt_values_exec(content);
    let pn: Vec<char> = match get_string(&ss, "Protocol Name") {
        Some(p) => {
            let pc = to_chars(p.as_str());
            let l = lower_range(&pc, 0, pc.len());
            assert(pc@.subrange(0, pc@.len() as int) =~= pc@);
            l
        },
        None => Vec::new(),
    };
    let has_host = get_string(&ss, "Hostname").is_some();
    let ssh_pfx = to_chars("ssh");
    assert(pn@.subrange(0, pn@.len() as int) =~= pn@);
    let ghost spn = match map_get(string_entries(ss@), "Protocol Name"@) {
        Some(p) => lower_seq(p),
        None => Seq::empty(),
    };
    assert(pn@ == spn);
    let protocol: &str = if crate::text::range_starts_with(&pn, 0, pn.len(), &ssh_pfx) {
        "ssh"
    } else if crate::text::chars_eq(&pn, &to_chars("telnet")) {
        "telnet"
    } else if crate::text::chars_eq(&pn, &to_chars("serial")) {
        "serial"
    } else if pn.len() == 0 && has_host {
        "ssh"
    } else {
        let w = if pn.len() == 0 {
            concat3("«", name, "»: sin protocolo ni host — omitida")
        } else {
            let ps = crate::text::string_from_chars(&pn);
            crate::text::concat5("«", name, "»: protocolo «", ps.as_str(), "» no soportado — omitida")
        };
        push_warning(warnings, w);
        assert(d.row is None);
        assert(d.warnings == seq![w@]);
        return None;
    };
    let port: Option<u16> = match first_port_exec(&ds) {
        Some(v) => if v <= 0xffff {
            Some(v as u16)
        } else {
            None
        },
        None => None,
    };
    if crate::text::str_is(protocol, "serial") {
        let device = match or_else_exec(get_string(&ss, "Serial Port"), get_string(&ss, "Port")) {
            Some(d) => d,
            None => String::new(),
        };
        if to_chars(device.as_str()).len() == 0 {
            push_warning(warnings, concat3("«", name, "»: serial sin puerto — omitida"));
            return None;
        }
        *next_id = *next_id + 1;
        let id = *next_id;
        let baud: u32 = match get_dword(&ds, "Baud Rate") {
            Some(b) => b,
            None => 9600,
        };
        let mut row = common::session(id, folder_id, name, "serial", None, None, None, Auth::Password, id - 1);
        row.options_json = common::serial_options_json(device.as_str(), baud);
        return Some(row);
    }
    match non_empty_exec(get_string(&ss, "Hostname")) {
        None => {
            push_warning(warnings, concat3("«", name, "»: sin Hostname — omitida"));
            None
        },
        Some(host) => {
            let auth = if crate::text::str_is(protocol, "ssh") {
                match non_empty_exec(or_else_exec(get_string(&ss, "Identity Filename V2"), get_string(&ss, "Identity Filename"))) {
                    Some(k) => Auth::Key(k),
                    None => Auth::Agent,
                }
            } else {
                Auth::Password
            };
            let p = match port {
                Some(p) => p,
                None => common::default_port(protocol),
            };
            let username = non_empty_exec(get_string(&ss, "Username"));
            *next_id = *next_id + 1;
            let id = *next_id;
            Some(common::session(id, folder_id, name, protocol, Some(host), Some(p), username, auth, id - 1))
        },
    }
}

// ---------------------------------------------------------------------------
// The session tree
// ---------------------------------------------------------------------------

/// Whether a `.ini` file with this stem is a session (not empty, not a
/// `__…` metadata file such as `__FolderData__`).
pub fn is_session_stem(stem: &str) -> (b: bool)
    ensures
        b == (stem@.len() > 0 && !starts_with(stem@, "__"@)),
{
    let c = to_chars(stem);
    let n = c.len();
    assert(c@.subrange(0, n as int) =~= c@);
    n > 0 && !crate::text::range_starts_with(&c, 0, n, &to_chars("__"))
}

/// The import so far: folders with their `(parent, name)` index, sessions,
/// the last ids given out, and warnings.
pub struct ScrtModel {
    pub folders: Seq<FolderView>,
    pub index: Seq<(Option<i64>, Seq<char>, i64)>,
    pub next_folder: int,
    pub sessions: Seq<SessionView>,
    pub next_session: int,
    pub warnings: Seq<Seq<char>>,
}

/// Position of folder `(parent, name)` in the index.
pub open spec fn folder_index(index: Seq<(Option<i64>, Seq<char>, i64)>, parent: Option<i64>, name: Seq<char>, from: int) -> Option<int>
    decreases index.len() - from,
{
    if from < 0 || from >= index.len() {
        None
    } else if index[from].0 == parent && index[from].1 == name {
        Some(from)
    } else {
        folder_index(index, parent, name, from + 1)
    }
}

/// The folder `name` under `parent`: the existing one, or a new one with
/// the next id.
pub open spec fn folder_added(m: ScrtModel, parent: Option<i64>, name: Seq<char>) -> (ScrtModel, i64) {
    match folder_index(m.index, parent, name, 0) {
        Some(i) => (m, m.index[i].2),
        None => {
            let id = (m.next_folder + 1) as i64;
            (
                ScrtModel {
                    folders: m.folders.push(
                        FolderView { id, parent_id: parent, name, sort_order: m.folders.len() as i32 },
                    ),
                    index: m.index.push((parent, name, id)),
                    next_folder: m.next_folder + 1,
                    ..m
                },
                id,
            )
        },
    }
}

/// The import after session file `stem` (text `content`) in `folder`.
pub open spec fn session_added(m: ScrtModel, stem: Seq<char>, content: Seq<char>, folder: Option<i64>) -> ScrtModel {
    let d = scrt_decode(stem, content, folder, m.next_session);
    ScrtModel {
        sessions: match d.row {
            Some(r) => m.sessions.push(r),
            None => m.sessions,
        },
        next_session: d.next_id,
        warnings: m.warnings + d.warnings,
        ..m
    }
}

/// Collects a SecureCRT session tree as the caller walks it.
pub struct ScrtImport {
    folders: Vec<Folder>,
    index: Vec<(Option<i64>, String, i64)>,
    next_folder: i64,
    sessions: Vec<SavedSession>,
    next_session: i64,
    warnings: Vec<String>,
}

/// The views of index entries.
pub open spec fn index_entries(v: Seq<(Option<i64>, String, i64)>) -> Seq<(Option<i64>, Seq<char>, i64)> {
    Seq::new(v.len(), |i: int| (v[i].0, v[i].1@, v[i].2))
}

impl ScrtImport {
    /// The import so far.
    pub closed spec fn model(&self) -> ScrtModel {
        ScrtModel {
            folders: folder_views(self.folders@),
            index: index_entries(self.index@),
            next_folder: self.next_folder as int,
            sessions: session_views(self.sessions@),
            next_session: self.next_session as int,
            warnings: str_views(self.warnings@),
        }
    }

    /// The counters are not negative.
    pub closed spec fn wf(&self) -> bool {
        self.next_folder >= 0 && self.next_session >= 0
    }

    /// An empty import.
    pub fn new() -> (r: ScrtImport)
        ensures
            r.wf(),
            r.model() == (ScrtModel {
                folders: Seq::empty(),
                index: Seq::empty(),
                next_folder: 0,
                sessions: Seq::empty(),
                next_session: 0,
                warnings: Seq::empty(),
            }),
    {
        let r = ScrtImport {
            folders: Vec::new(),
            index: Vec::new(),
            next_folder: 0,
            sessions: Vec::new(),
            next_session: 0,
            warnings: Vec::new(),
        };
        assert(folder_views(r.folders@) =~= Seq::<FolderView>::empty());
        assert(index_entries(r.index@) =~= Seq::<(Option<i64>, Seq<char>, i64)>::empty());
        assert(session_views(r.sessions@) =~= Seq::<SessionView>::empty());
        assert(str_views(r.warnings@) =~= Seq::<Seq<char>>::empty());
        r
    }

    /// The last folder id given out.
    pub fn folder_count(&self) -> (r: i64)
        ensures
            r as int == self.model().next_folder,
    {
        self.next_folder
    }

    /// The last session id given out.
    pub fn session_count(&self) -> (r: i64)
        ensures
            r as int == self.model().next_session,
    {
        self.next_session
    }

    /// The id of folder `name` under `parent`, created on first sight.
    pub fn add_folder(&mut self, parent: Option<i64>, name: &str) -> (id: i64)
        requires
            old(self).wf(),
            old(self).model().next_folder < 0x7fff_ffff_ffff_ffff,
        ensures
            final(self).wf(),
            (final(self).model(), id) == folder_added(old(self).model(), parent, name@),
    {
        let ghost ix = index_entries(self.index@);
        let nc = to_chars(name);
        let mut i: usize = 0;
        while i < self.index.len()
            invariant
                i <= self.index@.len(),
                self.wf(),
                self.model() == old(self).model(),
                ix == index_entries(self.index@),
                nc@ == name@,
                folder_index(ix, parent, name@, 0) == folder_index(ix, parent, name@, i as int),
            decreases self.index.len() - i,
        {
            assert(ix[i as int] == (self.index@[i as int].0, self.index@[i as int].1@, self.index@[i as int].2));
            if self.index[i].0 == parent && crate::text::chars_eq(&to_chars(self.index[i].1.as_str()), &nc) {
                return self.index[i].2;
            }
            i = i + 1;
        }
        self.next_folder = self.next_folder + 1;
        let id = self.next_folder;
        let order = self.folders.len() as i32;
        let f = common::folder(id, parent, name, order);
        let ghost fb = self.folders@;
        self.folders.push(f);
        assert(folder_views(self.folders@) =~= folder_views(fb).push(f@));
        self.index.push((parent, owned(name), id));
        assert(index_entries(self.index@) =~= ix.push((parent, name@, id)));
        id
    }

    /// Decodes session file `stem` (its text `content`) found in `folder`.
    pub fn add_session(&mut self, stem: &str, content: &str, folder: Option<i64>)
        requires
            old(self).wf(),
            old(self).model().next_session < 0x7fff_ffff_ffff_ffff,
        ensures
            final(self).wf(),
            final(self).model() == session_added(old(self).model(), stem@, content@, folder),
    {
        let row = decode_session(stem, content, folder, &mut self.next_session, &mut self.warnings);
        match row {
            Some(r) => {
                let ghost sb = self.sessions@;
                self.sessions.push(r);
                assert(session_views(self.sessions@) =~= session_views(sb).push(r@));
            },
            None => {},
        }
    }

    /// Records a warning (a file that could not be read).
    pub fn add_warning(&mut self, w: String)
        ensures
            final(self).model() == (ScrtModel { warnings: old(self).model().warnings.push(w@), ..old(self).model() }),
            final(self).wf() == old(self).wf(),
    {
        push_warning(&mut self.warnings, w);
    }

    /// The envelope with the folders and sessions, and the warnings.
    pub fn finish(self) -> (p: Parsed)
        ensures
            folder_views(p.file.folders@) == self.model().folders,
            session_views(p.file.sessions@) == self.model().sessions,
            str_views(p.warnings@) == self.model().warnings,
            common::is_envelope(p.file, p.file.folders@, p.file.sessions@),
    {
        Parsed { file: common::envelope(self.folders, self.sessions), warnings: self.warnings }
    }
}

proof fn lemma_folder_index_push(ix: Seq<(Option<i64>, Seq<char>, i64)>, e: (Option<i64>, Seq<char>, i64), parent: Option<i64>, name: Seq<char>, from: int)
    requires
        0 <= from <= ix.len(),
        folder_index(ix, parent, name, from) is None,
        e.0 == parent && e.1 == name,
    ensures
        folder_index(ix.push(e), parent, name, from) == Some(ix.len() as int),
    decreases ix.len() - from,
{
    let ix2 = ix.push(e);
    if from < ix.len() {
        assert(ix2[from] == ix[from]);
        lemma_folder_index_push(ix, e, parent, name, from + 1);
    }
}

/// A folder is created once: asking again for the same `(parent, name)`
/// gives the same id and changes nothing.
pub proof fn lemma_folder_once(m: ScrtModel, parent: Option<i64>, name: Seq<char>)
    ensures
        folder_added(folder_added(m, parent, name).0, parent, name) == folder_added(m, parent, name),
{
    if folder_index(m.index, parent, name, 0) is None {
        let id = (m.next_folder + 1) as i64;
        lemma_folder_index_push(m.index, (parent, name, id), parent, name, 0);
    }
}

} // verus!
