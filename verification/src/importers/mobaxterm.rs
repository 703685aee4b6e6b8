//! MobaXterm `.ini` / `.mxtsessions` → native export envelope.
//!
//! Bookmarks live in `[Bookmarks]` and `[Bookmarks_N]` sections; `SubRep`
//! gives the section's `\`-separated folder path, every other `key=value`
//! (but `ImgNum`) is a session named by its key. The value encodes
//! `#<icon>#<typeId>%<f1>%<f2>%…`: SSH (type 0 / icon 109) has f1=host,
//! f2=port, f3=username; telnet (icon 98) and serial (icon 131) are best
//! effort and warned; other kinds are skipped with a warning. `[PortForwarding]`
//! lines become forwards attached to their gateway session.
use vstd::prelude::*;
use crate::importers::common::{
    self, decimal, serial_options, serial_options_json, session_spec, u32_decimal, Auth, AuthView, Parsed,
};
use crate::model::{
    folder_views, forward_views, opt_str, session_forwards_views, session_views, str_views,
    Folder, FolderView, ForwardView, SavedForward, SavedSession, SessionForwards,
    SessionForwardsView, SessionView,
};
use crate::text::{
    range_views, split_ranges, parse_u32_range, lower_range, chars_eq, string_from_chars,
    concat3, concat5, find_char, find_from, last_index, last_index_in, lines, lower_seq,
    lower_vec, next_line, owned, parse_u16_range, parse_uint, push_str, range_is,
    range_starts_with, split_pieces, starts_with, string_from_range, to_chars, trim, trim_char,
    trim_end_char_range, trim_range, trim_start_char_range,
};

verus! {

// ---------------------------------------------------------------------------
// Folders
// ---------------------------------------------------------------------------

/// Folders created so far: the rows and the path → id index.
pub struct FolderState {
    pub folders: Seq<FolderView>,
    pub index: Seq<(Seq<char>, i64)>,
    pub next_id: int,
}

/// The id recorded for `path`, if any (first entry wins).
pub open spec fn lookup(index: Seq<(Seq<char>, i64)>, path: Seq<char>) -> Option<i64>
    decreases index.len(),
{
    if index.len() == 0 {
        None
    } else if index[0].0 == path {
        Some(index[0].1)
    } else {
        lookup(index.drop_first(), path)
    }
}

/// Resolves the path components `parts` below `parent` (with `acc` the path
/// so far), creating each missing folder once. Returns the leaf's id.
pub open spec fn walk_parts(fs: FolderState, parts: Seq<Seq<char>>, acc: Seq<char>, parent: Option<i64>) -> (
    FolderState,
    Option<i64>,
)
    decreases parts.len(),
{
    if parts.len() == 0 {
        (fs, parent)
    } else {
        let part = parts[0];
        if part.len() == 0 {
            walk_parts(fs, parts.drop_first(), acc, parent)
        } else {
            let acc2 = if acc.len() > 0 {
                acc + "\\"@ + part
            } else {
                acc + part
            };
            match lookup(fs.index, acc2) {
                Some(id) => walk_parts(fs, parts.drop_first(), acc2, Some(id)),
                None => {
                    let id = fs.next_id + 1;
                    let f = FolderView {
                        id: id as i64,
                        parent_id: parent,
                        name: part,
                        sort_order: fs.folders.len() as i32,
                    };
                    walk_parts(
                        FolderState {
                            folders: fs.folders.push(f),
                            index: fs.index.push((acc2, id as i64)),
                            next_id: id,
                        },
                        parts.drop_first(),
                        acc2,
                        Some(id as i64),
                    )
                },
            }
        }
    }
}

/// The leaf folder of a `SubRep` path (creating folders as needed); the
/// root (`None`) for an empty path.
pub open spec fn ensure_folder(fs: FolderState, path: Seq<char>) -> (FolderState, Option<i64>) {
    let p = trim_char(trim(path), '\\');
    if p.len() == 0 {
        (fs, None)
    } else {
        walk_parts(fs, split_pieces(p, '\\'), Seq::empty(), None)
    }
}

// ---------------------------------------------------------------------------
// Bookmark values
// ---------------------------------------------------------------------------

/// Field `i` of a bookmark, trimmed, when present and non-empty.
pub open spec fn field(fields: Seq<Seq<char>>, i: int) -> Option<Seq<char>> {
    if 0 <= i < fields.len() && trim(fields[i]).len() > 0 {
        Some(trim(fields[i]))
    } else {
        None
    }
}

/// The result of decoding one bookmark: the row (if any) and the warnings.
pub struct Decoded {
    pub row: Option<SessionView>,
    pub warnings: Seq<Seq<char>>,
    pub next_id: int,
}

/// The warning of a telnet bookmark (imported best-effort).
pub open spec fn telnet_warning(name: Seq<char>) -> Seq<char> {
    "«"@ + name + "»: telnet importada en modo best-effort, revisa host/puerto"@
}

/// Decodes bookmark `name = value` into a session row.
pub open spec fn decode_bookmark(name: Seq<char>, value: Seq<char>, folder_id: Option<i64>, next_id: int) -> Decoded {
    let none = Decoded { row: None, warnings: Seq::empty(), next_id };
    let v = trim(value);
    if v.len() == 0 || v[0] != '#' {
        none
    } else {
        let body = v.skip(1);
        let h = find_from(body, '#', 0);
        if h >= body.len() {
            none
        } else {
            let icon_s = body.take(h);
            let fields = split_pieces(body.skip(h + 1), '%');
            let type_id = fields[0];
            let icon: nat = match parse_uint(icon_s, 10, 0xffff_ffff) {
                Some(n) => n,
                None => 0,
            };
            if !(type_id == "0"@ || icon == 109 || icon == 98 || icon == 131) {
                Decoded {
                    row: None,
                    warnings: seq![
                        "«"@ + name + "»: tipo no soportado (icon "@ + decimal(icon) + ", type "@
                            + type_id + ") — omitida"@,
                    ],
                    next_id,
                }
            } else if !(type_id == "0"@ || icon == 109 || icon == 98) {
                match field(fields, 1) {
                    None => Decoded {
                        row: None,
                        warnings: seq!["«"@ + name + "»: serial sin línea — omitida"@],
                        next_id,
                    },
                    Some(device) => {
                        let id = next_id + 1;
                        let base = session_spec(
                            id as i64,
                            folder_id,
                            name,
                            "serial"@,
                            None,
                            None,
                            None,
                            AuthView::Password,
                            (id - 1) as i64,
                        );
                        let baud: nat = match field(fields, 2) {
                            Some(b) => match parse_uint(b, 10, 0xffff_ffff) {
                                Some(n) => n,
                                None => 9600,
                            },
                            None => 9600,
                        };
                        Decoded {
                            row: Some(SessionView { options_json: serial_options(device, decimal(baud)), ..base }),
                            warnings: seq![
                                "«"@ + name
                                    + "»: serial importada en modo best-effort, revisa device/baudios"@,
                            ],
                            next_id: id,
                        }
                    },
                }
            } else {
                let protocol = if type_id == "0"@ || icon == 109 {
                    "ssh"@
                } else {
                    "telnet"@
                };
                match field(fields, 1) {
                    None => none,
                    Some(host) => {
                        let id = next_id + 1;
                        let port: u16 = match field(fields, 2) {
                            Some(p) => match parse_uint(p, 10, 0xffff) {
                                Some(n) => n as u16,
                                None => if protocol == "telnet"@ {
                                    23
                                } else {
                                    22
                                },
                            },
                            None => if protocol == "telnet"@ {
                                23
                            } else {
                                22
                            },
                        };
                        Decoded {
                            row: Some(
                                session_spec(
                                    id as i64,
                                    folder_id,
                                    name,
                                    protocol,
                                    Some(host),
                                    Some(port),
                                    field(fields, 3),
                                    if protocol == "ssh"@ {
                                        AuthView::Agent
                                    } else {
                                        AuthView::Password
                                    },
                                    (id - 1) as i64,
                                ),
                            ),
                            warnings: if protocol == "telnet"@ {
                                seq![telnet_warning(name)]
                            } else {
                                Seq::empty()
                            },
                            next_id: id,
                        }
                    },
                }
            }
        }
    }
}

// ---------------------------------------------------------------------------
// Whole file
// ---------------------------------------------------------------------------

/// Parser state between lines.
pub struct MobaState {
    pub subrep: Seq<char>,
    pub in_bookmarks: bool,
    pub in_portfwd: bool,
    pub forward_lines: Seq<Seq<char>>,
    pub folders: FolderState,
    pub sessions: Seq<SessionView>,
    pub next_session_id: int,
    pub warnings: Seq<Seq<char>>,
}

/// Whether `a` equals `b` ignoring ASCII case.
pub open spec fn eq_ignore_case(a: Seq<char>, b: Seq<char>) -> bool {
    lower_seq(a) == lower_seq(b)
}

/// One line of the file.
pub open spec fn moba_step(st: MobaState, raw: Seq<char>) -> MobaState {
    let line = trim(raw);
    if line.len() == 0 || line[0] == ';' {
        st
    } else if line.len() >= 2 && line[0] == '[' && line.last() == ']' {
        let name = line.subrange(1, line.len() - 1);
        MobaState {
            in_bookmarks: name == "Bookmarks"@ || starts_with(name, "Bookmarks_"@),
            in_portfwd: name == "PortForwarding"@,
            subrep: Seq::empty(),
            ..st
        }
    } else if st.in_portfwd {
        MobaState { forward_lines: st.forward_lines.push(line), ..st }
    } else if !st.in_bookmarks {
        st
    } else {
        let e = find_from(line, '=', 0);
        if e >= line.len() {
            st
        } else {
            let key = trim(line.take(e));
            let value = line.skip(e + 1);
            if eq_ignore_case(key, "SubRep"@) {
                MobaState { subrep: trim(value), ..st }
            } else if eq_ignore_case(key, "ImgNum"@) {
                st
            } else {
                let (fs, folder_id) = ensure_folder(st.folders, st.subrep);
                let d = decode_bookmark(key, value, folder_id, st.next_session_id);
                MobaState {
                    folders: fs,
                    sessions: match d.row {
                        Some(r) => st.sessions.push(r),
                        None => st.sessions,
                    },
                    next_session_id: d.next_id,
                    warnings: st.warnings + d.warnings,
                    ..st
                }
            }
        }
    }
}

/// Folds `moba_step` over lines.
pub open spec fn moba_fold(st: MobaState, ls: Seq<Seq<char>>) -> MobaState
    decreases ls.len(),
{
    if ls.len() == 0 {
        st
    } else {
        moba_fold(moba_step(st, ls[0]), ls.drop_first())
    }
}

/// The state after reading the whole file (before forwards are attached).
pub open spec fn moba_read(content: Seq<char>) -> MobaState {
    moba_fold(
        MobaState {
            subrep: Seq::empty(),
            in_bookmarks: false,
            in_portfwd: false,
            forward_lines: Seq::empty(),
            folders: FolderState { folders: Seq::empty(), index: Seq::empty(), next_id: 0 },
            sessions: Seq::empty(),
            next_session_id: 0,
            warnings: Seq::empty(),
        },
        lines(content),
    )
}

// ---------------------------------------------------------------------------
// Forwards
// ---------------------------------------------------------------------------

/// Attachment state: sessions, grouped forwards, warnings, last id.
pub struct AttachState {
    pub sessions: Seq<SessionView>,
    pub groups: Seq<SessionForwardsView>,
    pub warnings: Seq<Seq<char>>,
    pub next_id: int,
}

/// Index of the first SSH session at `host:port`.
pub open spec fn find_gateway(rows: Seq<SessionView>, host: Seq<char>, port: u16, from: int) -> Option<int>
    decreases rows.len() - from,
{
    if from < 0 || from >= rows.len() {
        None
    } else if rows[from].protocol == "ssh"@ && rows[from].host == Some(host) && rows[from].port
        == Some(port) {
        Some(from)
    } else {
        find_gateway(rows, host, port, from + 1)
    }
}

/// Index of the group of session `sid`.
pub open spec fn find_group(groups: Seq<SessionForwardsView>, sid: i64, from: int) -> Option<int>
    decreases groups.len() - from,
{
    if from < 0 || from >= groups.len() {
        None
    } else if groups[from].session_id == sid {
        Some(from)
    } else {
        find_group(groups, sid, from + 1)
    }
}

/// Adds a forward to the group of `sid` (groups keep first-appearance order).
pub open spec fn add_to_group(groups: Seq<SessionForwardsView>, sid: i64, f: ForwardView) -> Seq<SessionForwardsView> {
    match find_group(groups, sid, 0) {
        Some(i) => groups.update(
            i,
            SessionForwardsView { session_id: sid, forwards: groups[i].forwards.push(f) },
        ),
        None => groups.push(SessionForwardsView { session_id: sid, forwards: seq![f] }),
    }
}

/// The tunnel warning `túnel «line»` + `suffix`.
pub open spec fn tunnel_warning(line: Seq<char>, suffix: Seq<char>) -> Seq<char> {
    "túnel «"@ + line + suffix
}

/// What a `[PortForwarding]` line yields: nothing (no `=`), a warning, or
/// a tunnel with its gateway (`user`, `host`, `port`) and its forward.
pub enum TunnelView {
    Skip,
    Warn(Seq<char>),
    Tunnel { user: Option<Seq<char>>, host: Seq<char>, port: u16, fwd: ForwardView },
}

/// The destination of a non-dynamic tunnel, `host:port` (host non-empty).
pub open spec fn tunnel_target(d: Seq<char>) -> Option<(Option<Seq<char>>, Option<u16>)> {
    match last_index(d, ':') {
        None => None,
        Some(j) => match parse_uint(trim(d.skip(j + 1)), 10, 0xffff) {
            Some(p) => if j > 0 {
                Some((Some(d.take(j)), Some(p as u16)))
            } else {
                None
            },
            None => None,
        },
    }
}

/// The gateway `host[:port]` of a tunnel (port 22 when absent or invalid).
pub open spec fn gateway_host_port(hostport: Seq<char>) -> (Seq<char>, u16) {
    match last_index(hostport, ':') {
        Some(j) => match parse_uint(trim(hostport.skip(j + 1)), 10, 0xffff) {
            Some(p) => (trim(hostport.take(j)), p as u16),
            None => (hostport, 22u16),
        },
        None => (hostport, 22u16),
    }
}

/// The gateway `[user@]host[:port]` of a tunnel.
pub open spec fn gateway_of(gw: Seq<char>) -> (Option<Seq<char>>, Seq<char>, u16) {
    let at = find_from(gw, '@', 0);
    let gw_user = if at < gw.len() {
        Some(trim(gw.take(at)))
    } else {
        None
    };
    let hostport = if at < gw.len() {
        trim(gw.skip(at + 1))
    } else {
        gw
    };
    let (h, p) = gateway_host_port(hostport);
    (gw_user, h, p)
}

/// Parses one `[PortForwarding]` line:
/// `<key>=<Type>;<[user@]host[:port]>;<dest_host:port>;<bind_port>;…;<bind_addr>;…`.
pub open spec fn tunnel_of(line: Seq<char>) -> TunnelView {
    let e = find_from(line, '=', 0);
    if e >= line.len() {
        TunnelView::Skip
    } else {
        let f = split_pieces(line.skip(e + 1), ';');
        if f.len() < 4 {
            TunnelView::Warn(tunnel_warning(line, "» con formato inesperado — omitido"@))
        } else {
            let k = lower_seq(trim(f[0]));
            if k != "local"@ && k != "remote"@ && k != "dynamic"@ {
                TunnelView::Warn("túnel «"@ + trim(f[0]) + "»: tipo «"@ + k + "» no soportado — omitido"@)
            } else {
                let (gw_user, gw_host, gw_port) = gateway_of(trim(f[1]));
                if gw_host.len() == 0 {
                    TunnelView::Warn(tunnel_warning(line, "»: sin gateway — omitido"@))
                } else {
                    match parse_uint(trim(f[3]), 10, 0xffff) {
                        None => TunnelView::Warn(tunnel_warning(line, "»: puerto local inválido — omitido"@)),
                        Some(bp) => if bp == 0 {
                            TunnelView::Warn(tunnel_warning(line, "»: puerto local inválido — omitido"@))
                        } else {
                            let bind_addr = if f.len() > 6 && trim(f[6]).len() > 0 {
                                trim(f[6])
                            } else {
                                "127.0.0.1"@
                            };
                            let d = trim(f[2]);
                            let target = if k == "dynamic"@ {
                                Some((None, None))
                            } else {
                                tunnel_target(d)
                            };
                            match target {
                                None => TunnelView::Warn(
                                    if last_index(d, ':') is None {
                                        tunnel_warning(line, "»: sin destino — omitido"@)
                                    } else {
                                        tunnel_warning(line, "»: destino inválido — omitido"@)
                                    },
                                ),
                                Some((th, tp)) => TunnelView::Tunnel {
                                    user: gw_user,
                                    host: gw_host,
                                    port: gw_port,
                                    fwd: ForwardView {
                                        kind: k,
                                        bind_addr,
                                        bind_port: bp as u16,
                                        target_host: th,
                                        target_port: tp,
                                    },
                                },
                            }
                        },
                    }
                }
            }
        }
    }
}

/// Attaches a tunnel to the first SSH session at its gateway, creating a
/// session named `[user@]host` for the gateway when none matches.
pub open spec fn attach_tunnel(st: AttachState, user: Option<Seq<char>>, host: Seq<char>, port: u16, fw: ForwardView) -> AttachState {
    match find_gateway(st.sessions, host, port, 0) {
        Some(i) => AttachState { groups: add_to_group(st.groups, st.sessions[i].id, fw), ..st },
        None => {
            let id = st.next_id + 1;
            let name = match user {
                Some(u) => u + "@"@ + host,
                None => host,
            };
            AttachState {
                sessions: st.sessions.push(
                    session_spec(id as i64, None, name, "ssh"@, Some(host), Some(port), user, AuthView::Agent, (id - 1) as i64),
                ),
                groups: add_to_group(st.groups, id as i64, fw),
                warnings: st.warnings.push("túnel: creada sesión «"@ + name + "» para el gateway del túnel"@),
                next_id: id,
            }
        },
    }
}

/// Processes one `[PortForwarding]` line.
pub open spec fn attach_step(st: AttachState, line: Seq<char>) -> AttachState {
    match tunnel_of(line) {
        TunnelView::Skip => st,
        TunnelView::Warn(w) => AttachState { warnings: st.warnings.push(w), ..st },
        TunnelView::Tunnel { user, host, port, fwd } => attach_tunnel(st, user, host, port, fwd),
    }
}


/// Folds `attach_step` over the forward lines.
pub open spec fn attach_fold(st: AttachState, ls: Seq<Seq<char>>) -> AttachState
    decreases ls.len(),
{
    if ls.len() == 0 {
        st
    } else {
        attach_fold(attach_step(st, ls[0]), ls.drop_first())
    }
}

/// The import of a MobaXterm file: folders, sessions (bookmarks, then
/// gateways created for tunnels), forwards grouped per gateway, warnings.
pub open spec fn moba_import(content: Seq<char>) -> (Seq<FolderView>, AttachState) {
    let r = moba_read(content);
    (
        r.folders.folders,
        attach_fold(
            AttachState { sessions: r.sessions, groups: Seq::empty(), warnings: r.warnings, next_id: r.next_session_id },
            r.forward_lines,
        ),
    )
}

// ---------------------------------------------------------------------------
// Executable parser
// ---------------------------------------------------------------------------

/// The concrete folder index: `(path, id)` pairs.
pub open spec fn index_view(v: Seq<(String, i64)>) -> Seq<(Seq<char>, i64)> {
    Seq::new(v.len(), |i: int| (v[i].0@, v[i].1))
}

/// The abstract folder state of concrete accumulators.
pub open spec fn folder_state(folders: Seq<Folder>, index: Seq<(String, i64)>, next: i64) -> FolderState {
    FolderState { folders: folder_views(folders), index: index_view(index), next_id: next as int }
}

proof fn lemma_walk_monotone(fs: FolderState, parts: Seq<Seq<char>>, acc: Seq<char>, parent: Option<i64>)
    ensures
        fs.next_id <= walk_parts(fs, parts, acc, parent).0.next_id,
    decreases parts.len(),
{
    if parts.len() > 0 {
        let part = parts[0];
        if part.len() == 0 {
            lemma_walk_monotone(fs, parts.drop_first(), acc, parent);
        } else {
            let acc2 = if acc.len() > 0 {
                acc + "\\"@ + part
            } else {
                acc + part
            };
            match lookup(fs.index, acc2) {
                Some(id) => lemma_walk_monotone(fs, parts.drop_first(), acc2, Some(id)),
                None => {
                    let id = fs.next_id + 1;
                    let f = FolderView { id: id as i64, parent_id: parent, name: part, sort_order: fs.folders.len() as i32 };
                    lemma_walk_monotone(
                        FolderState { folders: fs.folders.push(f), index: fs.index.push((acc2, id as i64)), next_id: id },
                        parts.drop_first(),
                        acc2,
                        Some(id as i64),
                    );
                },
            }
        }
    }
}

fn lookup_exec(index: &Vec<(String, i64)>, path: &Vec<char>) -> (r: Option<i64>)
    ensures
        r == lookup(index_view(index@), path@),
{
    let mut k: usize = 0;
    assert(index_view(index@).skip(0) =~= index_view(index@));
    while k < index.len()
        invariant
            k <= index@.len(),
            lookup(index_view(index@), path@) == lookup(index_view(index@).skip(k as int), path@),
        decreases index.len() - k,
    {
        let ghost rest = index_view(index@).skip(k as int);
        assert(rest[0] == (index@[k as int].0@, index@[k as int].1));
        assert(rest.drop_first() =~= index_view(index@).skip(k + 1));
        if crate::text::chars_eq(&to_chars(index[k].0.as_str()), path) {
            return Some(index[k].1);
        }
        k = k + 1;
    }
    assert(index_view(index@).skip(k as int) =~= Seq::<(Seq<char>, i64)>::empty());
    None
}

fn ensure_folder_exec(
    folders: &mut Vec<Folder>,
    index: &mut Vec<(String, i64)>,
    next: &mut i64,
    path: &Vec<char>,
) -> (r: Option<i64>)
    requires
        ensure_folder(folder_state(old(folders)@, old(index)@, *old(next)), path@).0.next_id < 0x7fff_ffff_ffff_ffff,
        *old(next) >= 0,
    ensures
        (folder_state(final(folders)@, final(index)@, *final(next)), r) == ensure_folder(
            folder_state(old(folders)@, old(index)@, *old(next)),
            path@,
        ),
{
    let n = path.len();
    let (a, b) = trim_range(path, 0, n);
    assert(path@.subrange(0, n as int) =~= path@);
    let ts = trim_start_char_range(path, a, b, '\\');
    let te = trim_end_char_range(path, ts, b, '\\');
    let ghost p = path@.subrange(ts as int, te as int);
    if ts == te {
        return None;
    }
    let ghost fs0 = folder_state(folders@, index@, *next);
    let ghost goal = walk_parts(fs0, split_pieces(p, '\\'), Seq::empty(), None);
    let mut acc: Vec<char> = Vec::new();
    let mut parent: Option<i64> = None;
    let mut pos = ts;
    assert(path@.subrange(ts as int, te as int).skip(0) =~= p);
    loop
        invariant_except_break
            ts <= pos <= te <= path@.len(),
            p == path@.subrange(ts as int, te as int),
            goal.0.next_id < 0x7fff_ffff_ffff_ffff,
            *next >= 0,
            goal == walk_parts(folder_state(folders@, index@, *next), split_pieces(path@.subrange(pos as int, te as int), '\\'), acc@, parent),
        ensures
            goal == (folder_state(folders@, index@, *next), parent),
        decreases te - pos,
    {
        let i = find_char(path, '\\', pos, te);
        let ghost s = path@.subrange(pos as int, te as int);
        proof {
            crate::text::lemma_find_from(s, '\\', 0);
        }
        let ghost piece = path@.subrange(pos as int, i as int);
        let ghost tail: Seq<Seq<char>> = if i < te {
            split_pieces(path@.subrange(i + 1, te as int), '\\')
        } else {
            Seq::empty()
        };
        assert(split_pieces(s, '\\') =~= seq![piece] + tail) by {
            if i < te {
                assert(s.take(i - pos) =~= piece);
                assert(s.skip(i - pos + 1) =~= path@.subrange(i + 1, te as int));
            } else {
                assert(s =~= piece);
            }
        }
        assert((seq![piece] + tail).drop_first() =~= tail);
        assert((seq![piece] + tail)[0] == piece);
        if pos < i {
            let ghost fs = folder_state(folders@, index@, *next);
            let mut acc2: Vec<char> = Vec::new();
            let mut q: usize = 0;
            while q < acc.len()
                invariant
                    q <= acc@.len(),
                    acc2@ == acc@.take(q as int),
                decreases acc.len() - q,
            {
                acc2.push(acc[q]);
                assert(acc@.take(q as int).push(acc@[q as int]) =~= acc@.take(q + 1));
                q = q + 1;
            }
            assert(acc@.take(q as int) =~= acc@);
            if acc.len() > 0 {
                acc2.push('\\');
            }
            let mut m = pos;
            proof {
                reveal_strlit("\\");
                assert(path@.subrange(pos as int, pos as int) =~= Seq::<char>::empty());
                if acc@.len() > 0 {
                    assert(acc2@ =~= acc@ + "\\"@ + path@.subrange(pos as int, m as int));
                } else {
                    assert(acc2@ =~= acc@ + path@.subrange(pos as int, m as int));
                }
            }
            while m < i
                invariant
                    pos <= m <= i <= path@.len(),
                    acc2@ == (if acc@.len() > 0 {
                        acc@ + "\\"@
                    } else {
                        acc@
                    }) + path@.subrange(pos as int, m as int),
                decreases i - m,
            {
                acc2.push(path[m]);
                proof {
                    reveal_strlit("\\");
                    assert((if acc@.len() > 0 {
                        acc@ + "\\"@
                    } else {
                        acc@
                    }) + path@.subrange(pos as int, m + 1) =~= ((if acc@.len() > 0 {
                        acc@ + "\\"@
                    } else {
                        acc@
                    }) + path@.subrange(pos as int, m as int)).push(path@[m as int]));
                }
                m = m + 1;
            }
            assert(acc2@ =~= (if acc@.len() > 0 {
                acc@ + "\\"@ + piece
            } else {
                acc@ + piece
            }));
            match lookup_exec(index, &acc2) {
                Some(id) => {
                    parent = Some(id);
                },
                None => {
                    proof {
                        lemma_walk_monotone(
                            FolderState {
                                folders: fs.folders.push(FolderView {
                                    id: (fs.next_id + 1) as i64,
                                    parent_id: parent,
                                    name: piece,
                                    sort_order: fs.folders.len() as i32,
                                }),
                                index: fs.index.push((acc2@, (fs.next_id + 1) as i64)),
                                next_id: fs.next_id + 1,
                            },
                            tail,
                            acc2@,
                            Some((fs.next_id + 1) as i64),
                        );
                    }
                    *next = *next + 1;
                    let id = *next;
                    let order = folders.len() as i32;
                    let name = string_from_range(path, pos, i);
                    let f = common::folder(id, parent, name.as_str(), order);
                    folders.push(f);
                    index.push((crate::text::string_from_chars(&acc2), id));
                    proof {
                        assert(folder_views(folders@) =~= fs.folders.push(f@));
                        assert(index_view(index@) =~= fs.index.push((acc2@, id)));
                    }
                    parent = Some(id);
                },
            }
            acc = acc2;
        }
        assert(goal == walk_parts(folder_state(folders@, index@, *next), tail, acc@, parent));
        if i == te {
            assert(tail =~= Seq::<Seq<char>>::empty());
            break;
        }
        pos = i + 1;
    }
    parent
}

/// The view of an optional row.
pub open spec fn opt_session(o: Option<SavedSession>) -> Option<SessionView> {
    match o {
        Some(r) => Some(r@),
        None => None,
    }
}

proof fn lemma_split_nonempty(s: Seq<char>, c: char)
    ensures
        split_pieces(s, c).len() >= 1,
{
    let i = find_from(s, c, 0);
    if 0 <= i < s.len() {
        assert((seq![s.take(i)] + split_pieces(s.skip(i + 1), c))[0] == s.take(i));
    }
}

/// Appends a warning.
pub(crate) fn push_warning(warnings: &mut Vec<String>, w: String)
    ensures
        str_views(final(warnings)@) == str_views(old(warnings)@).push(w@),
{
    warnings.push(w);
    assert(str_views(warnings@) =~= str_views(old(warnings)@).push(w@));
}

/// Every range of `fr` lies within `0..n`.
#[verifier::opaque]
spec fn ranges_within(fr: Seq<(usize, usize)>, n: int) -> bool {
    forall|k: int| 0 <= k < fr.len() ==> #[trigger] fr[k].0 <= fr[k].1 <= n
}

/// The trimmed range of field `i` when present and non-empty.
fn field_exec(line: &Vec<char>, fr: &Vec<(usize, usize)>, i: usize) -> (r: Option<(usize, usize)>)
    requires
        ranges_within(fr@, line@.len() as int),
    ensures
        match field(range_views(line@, fr@), i as int) {
            Some(f) => r matches Some(p) && p.0 <= p.1 <= line@.len() && line@.subrange(
                p.0 as int,
                p.1 as int,
            ) == f,
            None => r is None,
        },
{
    if i >= fr.len() {
        return None;
    }
    proof {
        reveal(ranges_within);
        assert(fr@[i as int].0 <= fr@[i as int].1 <= line@.len());
    }
    let (a, b) = trim_range(line, fr[i].0, fr[i].1);
    if a == b {
        None
    } else {
        Some((a, b))
    }
}

/// Decodes bookmark `name` whose value is `line[lo..hi]`: the row, if any,
/// with ids continuing from `next_id`; warnings are appended.
fn decode_exec(
    name: &str,
    line: &Vec<char>,
    lo: usize,
    hi: usize,
    folder_id: Option<i64>,
    next_id: &mut i64,
    warnings: &mut Vec<String>,
) -> (r: Option<SavedSession>)
    requires
        lo <= hi <= line@.len(),
        0 <= *old(next_id) < 0x7fff_ffff_ffff_ffff,
    ensures
        opt_session(r) == decode_bookmark(
            name@,
            line@.subrange(lo as int, hi as int),
            folder_id,
            *old(next_id) as int,
        ).row,
        *final(next_id) as int == decode_bookmark(
            name@,
            line@.subrange(lo as int, hi as int),
            folder_id,
            *old(next_id) as int,
        ).next_id,
        str_views(final(warnings)@) == str_views(old(warnings)@) + decode_bookmark(
            name@,
            line@.subrange(lo as int, hi as int),
            folder_id,
            *old(next_id) as int,
        ).warnings,
{
    proof {
        reveal_strlit("ssh");
        reveal_strlit("telnet");
    }
    let ghost w0 = str_views(warnings@);
    assert(w0 + Seq::<Seq<char>>::empty() =~= w0);
    let (a, b) = trim_range(line, lo, hi);
    let ghost v = line@.subrange(a as int, b as int);
    if a == b || line[a] != '#' {
        return None;
    }
    let h = find_char(line, '#', a + 1, b);
    let ghost body = v.skip(1);
    assert(body =~= line@.subrange(a + 1, b as int));
    if h == b {
        return None;
    }
    assert(body.take(h - a - 1) =~= line@.subrange(a + 1, h as int));
    assert(body.skip(h - a) =~= line@.subrange(h + 1, b as int));
    let icon: u32 = match parse_u32_range(line, a + 1, h, 10) {
        Some(n) => n,
        None => 0,
    };
    let fr = split_ranges(line, h + 1, b, '%');
    let ghost fields = range_views(line@, fr@);
    proof {
        lemma_split_nonempty(line@.subrange(h + 1, b as int), '%');
    }
    assert(ranges_within(fr@, line@.len() as int)) by {
        reveal(ranges_within);
        assert forall|k: int| 0 <= k < fr@.len() implies #[trigger] fr@[k].0 <= fr@[k].1 <= line@.len() by {
            assert(h + 1 <= fr@[k].0 <= fr@[k].1 <= b);
        }
    }
    let f1 = field_exec(line, &fr, 1);
    let f2 = field_exec(line, &fr, 2);
    let f3 = field_exec(line, &fr, 3);
    assert(fr@[0].0 <= fr@[0].1 <= line@.len()) by {
        reveal(ranges_within);
    }
    let t0 = fr[0];
    let is0 = range_is(line, t0.0, t0.1, "0");
    let ghost icon_s = body.take(h - a - 1);
    let ghost icon_n: nat = match parse_uint(icon_s, 10, 0xffff_ffff) {
        Some(n) => n,
        None => 0,
    };
    assert(icon_n == icon as nat);
    assert(fields[0] == line@.subrange(t0.0 as int, t0.1 as int));
    assert(is0 == (fields[0] == "0"@));
    assert(fields == split_pieces(body.skip(h - a), '%'));
    if !(is0 || icon == 109 || icon == 98 || icon == 131) {
        let mut w = owned("«");
        push_str(&mut w, name);
        push_str(&mut w, "»: tipo no soportado (icon ");
        let ic = u32_decimal(icon);
        push_str(&mut w, ic.as_str());
        push_str(&mut w, ", type ");
        let ty = string_from_range(line, t0.0, t0.1);
        push_str(&mut w, ty.as_str());
        push_str(&mut w, ") — omitida");
        push_warning(warnings, w);
        return None;
    }
    if !(is0 || icon == 109 || icon == 98) {
        match f1 {
            None => {
                let w = concat3("«", name, "»: serial sin línea — omitida");
                push_warning(warnings, w);
                return None;
            },
            Some((da, db)) => {
                let w = concat3("«", name, "»: serial importada en modo best-effort, revisa device/baudios");
                push_warning(warnings, w);
                *next_id = *next_id + 1;
                let id = *next_id;
                let baud: u32 = match f2 {
                    Some((ba, bb)) => match parse_u32_range(line, ba, bb, 10) {
                        Some(n) => n,
                        None => 9600,
                    },
                    None => 9600,
                };
                let device = string_from_range(line, da, db);
                let mut row = common::session(id, folder_id, name, "serial", None, None, None, Auth::Password, id - 1);
                row.options_json = serial_options_json(device.as_str(), baud);
                return Some(row);
            },
        }
    }
    let is_ssh = is0 || icon == 109;
    let protocol: &str = if is_ssh {
        "ssh"
    } else {
        "telnet"
    };
    let ghost d = decode_bookmark(name@, line@.subrange(lo as int, hi as int), folder_id, *old(next_id) as int);
    match f1 {
        None => {
            assert(d.row is None);
            None
        },
        Some((ha, hb)) => {
            let port: u16 = match f2 {
                Some((pa, pb)) => match parse_u16_range(line, pa, pb) {
                    Some(n) => n,
                    None => common::default_port(protocol),
                },
                None => common::default_port(protocol),
            };
            let username = match f3 {
                Some((ua, ub)) => Some(string_from_range(line, ua, ub)),
                None => None,
            };
            let auth = if is_ssh {
                Auth::Agent
            } else {
                Auth::Password
            };
            *next_id = *next_id + 1;
            let id = *next_id;
            let host = string_from_range(line, ha, hb);
            let ghost proto = if fields[0] == "0"@ || icon_n == 109 {
                "ssh"@
            } else {
                "telnet"@
            };
            assert(proto == protocol@);
            let ghost port_s: u16 = match field(fields, 2) {
                Some(p) => match parse_uint(p, 10, 0xffff) {
                    Some(n) => n as u16,
                    None => if proto == "telnet"@ {
                        23
                    } else {
                        22
                    },
                },
                None => if proto == "telnet"@ {
                    23
                } else {
                    22
                },
            };
            assert(port_s == port);
            assert(opt_str(username) == field(fields, 3));
            assert("telnet"@ != "ssh"@) by {
                reveal_strlit("ssh");
                reveal_strlit("telnet");
                assert("telnet"@.len() != "ssh"@.len());
            }
            assert(is_ssh == (proto == "ssh"@));
            assert(auth@ == (if proto == "ssh"@ {
                AuthView::Agent
            } else {
                AuthView::Password
            }));
            assert(field(fields, 1) == Some(host@));
            let r = common::session(id, folder_id, name, protocol, Some(host), Some(port), username, auth, id - 1);
            assert(d.row == Some(r@));
            if !is_ssh {
                let w = concat3("«", name, "»: telnet importada en modo best-effort, revisa host/puerto");
                push_warning(warnings, w);
            }
            Some(r)
        },
    }
}

/// Bound on the file-local ids.
pub open spec fn id_max() -> int {
    0x7fff_ffff_ffff_ffff
}

proof fn lemma_step_monotone(st: MobaState, raw: Seq<char>)
    ensures
        st.folders.next_id <= moba_step(st, raw).folders.next_id,
        st.next_session_id <= moba_step(st, raw).next_session_id,
{
    let line = trim(raw);
    if line.len() > 0 && line[0] != ';' && !(line.len() >= 2 && line[0] == '[' && line.last() == ']')
        && !st.in_portfwd && st.in_bookmarks {
        let p = trim_char(trim(st.subrep), '\\');
        if p.len() > 0 {
            lemma_walk_monotone(st.folders, split_pieces(p, '\\'), Seq::empty(), None);
        }
    }
}

proof fn lemma_fold_monotone(st: MobaState, ls: Seq<Seq<char>>)
    ensures
        st.folders.next_id <= moba_fold(st, ls).folders.next_id,
        st.next_session_id <= moba_fold(st, ls).next_session_id,
    decreases ls.len(),
{
    if ls.len() > 0 {
        lemma_step_monotone(st, ls[0]);
        lemma_fold_monotone(moba_step(st, ls[0]), ls.drop_first());
    }
}

/// The reader's accumulators while it walks the file.
struct MobaReader {
    subrep: Vec<char>,
    in_bookmarks: bool,
    in_portfwd: bool,
    forward_lines: Vec<String>,
    folders: Vec<Folder>,
    index: Vec<(String, i64)>,
    next_folder: i64,
    sessions: Vec<SavedSession>,
    next_session: i64,
    warnings: Vec<String>,
}

spec fn reader_state(rd: MobaReader) -> MobaState {
    MobaState {
        subrep: rd.subrep@,
        in_bookmarks: rd.in_bookmarks,
        in_portfwd: rd.in_portfwd,
        forward_lines: str_views(rd.forward_lines@),
        folders: folder_state(rd.folders@, rd.index@, rd.next_folder),
        sessions: session_views(rd.sessions@),
        next_session_id: rd.next_session as int,
        warnings: str_views(rd.warnings@),
    }
}

/// Executable `moba_step` on line `c[lo..hi]`.
fn moba_step_exec(rd: &mut MobaReader, c: &Vec<char>, lo: usize, hi: usize)
    requires
        lo <= hi <= c@.len(),
        old(rd).next_folder >= 0,
        0 <= old(rd).next_session < id_max(),
        moba_step(reader_state(*old(rd)), c@.subrange(lo as int, hi as int)).folders.next_id < id_max(),
    ensures
        reader_state(*final(rd)) == moba_step(reader_state(*old(rd)), c@.subrange(lo as int, hi as int)),
{
    let ghost st = reader_state(*rd);
    let (a, b) = trim_range(c, lo, hi);
    let ghost line = c@.subrange(a as int, b as int);
    if a == b || c[a] == ';' {
        return;
    }
    if b - a >= 2 && c[a] == '[' && c[b - 1] == ']' {
        let bm = to_chars("Bookmarks_");
        rd.in_bookmarks = range_is(c, a + 1, b - 1, "Bookmarks") || range_starts_with(c, a + 1, b - 1, &bm);
        rd.in_portfwd = range_is(c, a + 1, b - 1, "PortForwarding");
        rd.subrep = Vec::new();
        assert(line.subrange(1, line.len() - 1) =~= c@.subrange(a + 1, b - 1));
        assert(rd.subrep@ =~= Seq::<char>::empty());
        return;
    }
    if rd.in_portfwd {
        let l = string_from_range(c, a, b);
        rd.forward_lines.push(l);
        assert(str_views(rd.forward_lines@) =~= st.forward_lines.push(line));
        return;
    }
    if !rd.in_bookmarks {
        return;
    }
    let e = find_char(c, '=', a, b);
    if e == b {
        return;
    }
    assert(line.take(e - a) =~= c@.subrange(a as int, e as int));
    assert(line.skip(e - a + 1) =~= c@.subrange(e + 1, b as int));
    let (ka, kb) = trim_range(c, a, e);
    let key_lower = lower_range(c, ka, kb);
    proof {
        reveal_strlit("SubRep");
        reveal_strlit("subrep");
        reveal_strlit("ImgNum");
        reveal_strlit("imgnum");
        assert(lower_seq("SubRep"@) =~= "subrep"@);
        assert(lower_seq("ImgNum"@) =~= "imgnum"@);
    }
    if chars_eq(&key_lower, &to_chars("subrep")) {
        let (va, vb) = trim_range(c, e + 1, b);
        let mut sub: Vec<char> = Vec::new();
        let mut q = va;
        while q < vb
            invariant
                va <= q <= vb <= c@.len(),
                sub@ == c@.subrange(va as int, q as int),
            decreases vb - q,
        {
            sub.push(c[q]);
            assert(c@.subrange(va as int, q + 1) =~= c@.subrange(va as int, q as int).push(c@[q as int]));
            q = q + 1;
        }
        rd.subrep = sub;
        return;
    }
    if chars_eq(&key_lower, &to_chars("imgnum")) {
        return;
    }
    let path = rd.subrep.clone();
    let folder_id = ensure_folder_exec(&mut rd.folders, &mut rd.index, &mut rd.next_folder, &path);
    let key = string_from_range(c, ka, kb);
    let row = decode_exec(key.as_str(), c, e + 1, b, folder_id, &mut rd.next_session, &mut rd.warnings);
    match row {
        Some(r) => {
            let ghost before = rd.sessions@;
            rd.sessions.push(r);
            assert(session_views(rd.sessions@) =~= session_views(before).push(r@));
        },
        None => {},
    }
}

/// An executable tunnel parse.
enum Tunnel {
    Skip,
    Warn(String),
    Fwd { user: Option<String>, host: String, port: u16, fwd: SavedForward },
}

spec fn tunnel_view(t: Tunnel) -> TunnelView {
    match t {
        Tunnel::Skip => TunnelView::Skip,
        Tunnel::Warn(w) => TunnelView::Warn(w@),
        Tunnel::Fwd { user, host, port, fwd } => TunnelView::Tunnel { user: opt_str(user), host: host@, port, fwd: fwd@ },
    }
}

/// Executable `gateway_host_port` on `c[lo..hi]`: the host's bounds and the port.
fn gateway_exec(c: &Vec<char>, lo: usize, hi: usize) -> (r: (usize, usize, u16))
    requires
        lo <= hi <= c@.len(),
    ensures
        r.0 <= r.1 <= c@.len(),
        (c@.subrange(r.0 as int, r.1 as int), r.2) == gateway_host_port(c@.subrange(lo as int, hi as int)),
{
    let ghost hp = c@.subrange(lo as int, hi as int);
    match last_index_in(c, ':', lo, hi) {
        Some(j) => {
            assert(hp.skip(j - lo + 1) =~= c@.subrange(j + 1, hi as int));
            assert(hp.take(j - lo) =~= c@.subrange(lo as int, j as int));
            let (pa, pb) = trim_range(c, j + 1, hi);
            match parse_u16_range(c, pa, pb) {
                Some(p) => {
                    let (xa, xb) = trim_range(c, lo, j);
                    (xa, xb, p)
                },
                None => (lo, hi, 22),
            }
        },
        None => (lo, hi, 22),
    }
}

/// Executable `gateway_of` on `c[lo..hi]`: the user, the host's bounds, the port.
fn gateway_full_exec(c: &Vec<char>, ga: usize, gb: usize) -> (r: (Option<String>, usize, usize, u16))
    requires
        ga <= gb <= c@.len(),
    ensures
        r.1 <= r.2 <= c@.len(),
        (opt_str(r.0), c@.subrange(r.1 as int, r.2 as int), r.3) == gateway_of(c@.subrange(ga as int, gb as int)),
{
    let ghost gw = c@.subrange(ga as int, gb as int);
    let at = find_char(c, '@', ga, gb);
    let gw_user = if at < gb {
        assert(gw.take(at - ga) =~= c@.subrange(ga as int, at as int));
        let (ua, ub) = trim_range(c, ga, at);
        Some(string_from_range(c, ua, ub))
    } else {
        None
    };
    let (ha, hb) = if at < gb {
        assert(gw.skip(at - ga + 1) =~= c@.subrange(at + 1, gb as int));
        trim_range(c, at + 1, gb)
    } else {
        (ga, gb)
    };
    let (gha, ghb, gport) = gateway_exec(c, ha, hb);
    (gw_user, gha, ghb, gport)
}

/// Executable `tunnel_target` on `c[lo..hi]`.
fn target_exec(c: &Vec<char>, lo: usize, hi: usize) -> (r: Option<(Option<String>, Option<u16>)>)
    requires
        lo <= hi <= c@.len(),
    ensures
        match r {
            Some((h, p)) => tunnel_target(c@.subrange(lo as int, hi as int)) == Some((opt_str(h), p)),
            None => tunnel_target(c@.subrange(lo as int, hi as int)) is None,
        },
{
    let ghost d = c@.subrange(lo as int, hi as int);
    match last_index_in(c, ':', lo, hi) {
        None => None,
        Some(j) => {
            assert(d.skip(j - lo + 1) =~= c@.subrange(j + 1, hi as int));
            assert(d.take(j - lo) =~= c@.subrange(lo as int, j as int));
            let (pa, pb) = trim_range(c, j + 1, hi);
            match parse_u16_range(c, pa, pb) {
                Some(p) => if j > lo {
                    Some((Some(string_from_range(c, lo, j)), Some(p)))
                } else {
                    None
                },
                None => None,
            }
        },
    }
}

/// Executable `tunnel_of`.
fn tunnel_exec(c: &Vec<char>) -> (r: Tunnel)
    ensures
        tunnel_view(r) == tunnel_of(c@),
{
    proof {
        reveal_strlit("local");
        reveal_strlit("remote");
        reveal_strlit("dynamic");
    }
    let n = c.len();
    let e = find_char(c, '=', 0, n);
    assert(c@.subrange(0, n as int) =~= c@);
    if e == n {
        return Tunnel::Skip;
    }
    let fr = split_ranges(c, e + 1, n, ';');
    assert(c@.skip(e + 1) =~= c@.subrange(e + 1, n as int));
    let ghost f = range_views(c@, fr@);
    assert(forall|k: int| 0 <= k < fr@.len() ==> #[trigger] fr@[k].0 <= fr@[k].1 <= c@.len());
    let line_s = string_from_chars(c);
    if fr.len() < 4 {
        return Tunnel::Warn(concat3("túnel «", line_s.as_str(), "» con formato inesperado — omitido"));
    }
    let (k0a, k0b) = trim_range(c, fr[0].0, fr[0].1);
    let k = lower_range(c, k0a, k0b);
    let is_local = chars_eq(&k, &to_chars("local"));
    let is_remote = chars_eq(&k, &to_chars("remote"));
    let is_dynamic = chars_eq(&k, &to_chars("dynamic"));
    if !is_local && !is_remote && !is_dynamic {
        let t0 = string_from_range(c, k0a, k0b);
        let ks = string_from_chars(&k);
        return Tunnel::Warn(concat5("túnel «", t0.as_str(), "»: tipo «", ks.as_str(), "» no soportado — omitido"));
    }
    let kind: &str = if is_local {
        "local"
    } else if is_remote {
        "remote"
    } else {
        "dynamic"
    };
    assert(kind@ == k@);
    let (ga, gb) = trim_range(c, fr[1].0, fr[1].1);
    let (gw_user, gha, ghb, gport) = gateway_full_exec(c, ga, gb);
    if gha == ghb {
        return Tunnel::Warn(concat3("túnel «", line_s.as_str(), "»: sin gateway — omitido"));
    }
    let (ba, bb) = trim_range(c, fr[3].0, fr[3].1);
    let bp = match parse_u16_range(c, ba, bb) {
        None => {
            return Tunnel::Warn(concat3("túnel «", line_s.as_str(), "»: puerto local inválido — omitido"));
        },
        Some(p) => p,
    };
    if bp == 0 {
        return Tunnel::Warn(concat3("túnel «", line_s.as_str(), "»: puerto local inválido — omitido"));
    }
    let bind_addr = if fr.len() > 6 {
        let (aa, ab) = trim_range(c, fr[6].0, fr[6].1);
        if aa < ab {
            string_from_range(c, aa, ab)
        } else {
            owned("127.0.0.1")
        }
    } else {
        owned("127.0.0.1")
    };
    let (da, db) = trim_range(c, fr[2].0, fr[2].1);
    let target = if is_dynamic {
        Some((None, None))
    } else {
        target_exec(c, da, db)
    };
    match target {
        None => {
            let w = match last_index_in(c, ':', da, db) {
                None => concat3("túnel «", line_s.as_str(), "»: sin destino — omitido"),
                Some(_) => concat3("túnel «", line_s.as_str(), "»: destino inválido — omitido"),
            };
            Tunnel::Warn(w)
        },
        Some((th, tp)) => {
            let host = string_from_range(c, gha, ghb);
            let fwd = SavedForward { kind: owned(kind), bind_addr, bind_port: bp, target_host: th, target_port: tp };
            Tunnel::Fwd { user: gw_user, host, port: gport, fwd }
        },
    }
}

proof fn lemma_attach_monotone(st: AttachState, ls: Seq<Seq<char>>)
    ensures
        st.next_id <= attach_fold(st, ls).next_id,
    decreases ls.len(),
{
    if ls.len() > 0 {
        lemma_attach_monotone(attach_step(st, ls[0]), ls.drop_first());
    }
}

/// Index of the first SSH session at `host:port`.
fn find_gateway_exec(sessions: &Vec<SavedSession>, host: &String, port: u16) -> (r: Option<usize>)
    ensures
        match r {
            Some(i) => i < sessions@.len() && find_gateway(session_views(sessions@), host@, port, 0) == Some(i as int),
            None => find_gateway(session_views(sessions@), host@, port, 0) is None,
        },
{
    let ghost rows = session_views(sessions@);
    let mut k: usize = 0;
    while k < sessions.len()
        invariant
            k <= sessions@.len(),
            rows == session_views(sessions@),
            find_gateway(rows, host@, port, 0) == find_gateway(rows, host@, port, k as int),
        decreases sessions.len() - k,
    {
        let s = &sessions[k];
        let is_ssh = crate::text::str_is(s.protocol.as_str(), "ssh");
        let same_host = match &s.host {
            Some(h) => chars_eq(&to_chars(h.as_str()), &to_chars(host.as_str())),
            None => false,
        };
        let same_port = match s.port {
            Some(p) => p == port,
            None => false,
        };
        assert(rows[k as int] == s@);
        if is_ssh && same_host && same_port {
            return Some(k);
        }
        k = k + 1;
    }
    None
}

/// Executable `add_to_group`.
fn add_to_group_exec(groups: &mut Vec<SessionForwards>, sid: i64, f: SavedForward)
    ensures
        session_forwards_views(final(groups)@) == add_to_group(session_forwards_views(old(groups)@), sid, f@),
{
    let ghost gs = session_forwards_views(groups@);
    let mut i: usize = 0;
    while i < groups.len()
        invariant
            i <= groups@.len(),
            groups@ == old(groups)@,
            gs == session_forwards_views(groups@),
            find_group(gs, sid, 0) == find_group(gs, sid, i as int),
        decreases groups.len() - i,
    {
        if groups[i].session_id == sid {
            let ghost before = groups@;
            let mut g = groups.remove(i);
            let ghost gv = g@;
            g.forwards.push(f);
            assert(g@.forwards =~= gv.forwards.push(f@));
            groups.insert(i, g);
            assert(groups@ =~= before.update(i as int, g));
            assert(session_forwards_views(groups@) =~= gs.update(
                i as int,
                SessionForwardsView { session_id: sid, forwards: gs[i as int].forwards.push(f@) },
            ));
            return;
        }
        i = i + 1;
    }
    let mut fs: Vec<SavedForward> = Vec::new();
    fs.push(f);
    let g = SessionForwards { session_id: sid, forwards: fs };
    assert(g@.forwards =~= seq![f@]);
    groups.push(g);
    assert(session_forwards_views(groups@) =~= gs.push(SessionForwardsView { session_id: sid, forwards: seq![f@] }));
}

spec fn attach_state(sessions: Seq<SavedSession>, groups: Seq<SessionForwards>, warnings: Seq<String>, next_id: i64) -> AttachState {
    AttachState {
        sessions: session_views(sessions),
        groups: session_forwards_views(groups),
        warnings: str_views(warnings),
        next_id: next_id as int,
    }
}

/// Executable `attach_step`.
fn attach_step_exec(
    sessions: &mut Vec<SavedSession>,
    groups: &mut Vec<SessionForwards>,
    warnings: &mut Vec<String>,
    next_id: &mut i64,
    line: &String,
)
    requires
        *old(next_id) >= 0,
        attach_step(attach_state(old(sessions)@, old(groups)@, old(warnings)@, *old(next_id)), line@).next_id < id_max(),
    ensures
        attach_state(final(sessions)@, final(groups)@, final(warnings)@, *final(next_id)) == attach_step(
            attach_state(old(sessions)@, old(groups)@, old(warnings)@, *old(next_id)),
            line@,
        ),
{
    let c = to_chars(line.as_str());
    match tunnel_exec(&c) {
        Tunnel::Skip => {},
        Tunnel::Warn(w) => {
            push_warning(warnings, w);
        },
        Tunnel::Fwd { user, host, port, fwd } => {
            match find_gateway_exec(sessions, &host, port) {
                Some(i) => {
                    let sid = sessions[i].id;
                    add_to_group_exec(groups, sid, fwd);
                },
                None => {
                    *next_id = *next_id + 1;
                    let id = *next_id;
                    let name = match &user {
                        Some(u) => concat3(u.as_str(), "@", host.as_str()),
                        None => owned(host.as_str()),
                    };
                    let row = common::session(id, None, name.as_str(), "ssh", Some(host), Some(port), user, Auth::Agent, id - 1);
                    let ghost before = sessions@;
                    sessions.push(row);
                    assert(session_views(sessions@) =~= session_views(before).push(row@));
                    add_to_group_exec(groups, id, fwd);
                    push_warning(warnings, concat3("túnel: creada sesión «", name.as_str(), "» para el gateway del túnel"));
                },
            }
        },
    }
}

/// Whether the file-local ids of an import stay below `i64::MAX`.
pub open spec fn moba_fits(content: Seq<char>) -> bool {
    &&& moba_read(content).folders.next_id < id_max()
    &&& moba_import(content).1.next_id < id_max()
}

/// Parses a MobaXterm `.ini` / `.mxtsessions` export: folders from the
/// `SubRep` paths, one session per supported bookmark, `[PortForwarding]`
/// tunnels grouped under their gateway session, and the parser warnings.
pub fn parse(content: &str) -> (p: Parsed)
    requires
        moba_fits(content@),
    ensures
        folder_views(p.file.folders@) == moba_import(content@).0,
        session_views(p.file.sessions@) == moba_import(content@).1.sessions,
        session_forwards_views(p.file.session_forwards@) == moba_import(content@).1.groups,
        str_views(p.warnings@) == moba_import(content@).1.warnings,
        p.file.zapx_export == 1,
        p.file.app_version@.len() == 0,
        p.file.exported_at@.len() == 0,
        p.file.broadcast_groups@.len() == 0,
        p.file.snippets@.len() == 0,
        p.file.highlight_rules@.len() == 0,
{
    let c = to_chars(content);
    let n = c.len();
    let mut rd = MobaReader {
        subrep: Vec::new(),
        in_bookmarks: false,
        in_portfwd: false,
        forward_lines: Vec::new(),
        folders: Vec::new(),
        index: Vec::new(),
        next_folder: 0,
        sessions: Vec::new(),
        next_session: 0,
        warnings: Vec::new(),
    };
    let ghost goal = moba_read(content@);
    proof {
        let st = reader_state(rd);
        assert(st.forward_lines =~= Seq::<Seq<char>>::empty());
        assert(st.sessions =~= Seq::<SessionView>::empty());
        assert(st.warnings =~= Seq::<Seq<char>>::empty());
        assert(st.folders.folders =~= Seq::<FolderView>::empty());
        assert(st.folders.index =~= Seq::<(Seq<char>, i64)>::empty());
        assert(st.subrep =~= Seq::<char>::empty());
        assert(c@.skip(0) =~= c@);
        let r = moba_read(content@);
        lemma_attach_monotone(
            AttachState { sessions: r.sessions, groups: Seq::empty(), warnings: r.warnings, next_id: r.next_session_id },
            r.forward_lines,
        );
    }
    let mut pos: usize = 0;
    while pos < n
        invariant
            n == c@.len(),
            c@ == content@,
            pos <= n,
            goal == moba_read(content@),
            goal == moba_fold(reader_state(rd), lines(c@.skip(pos as int))),
            goal.folders.next_id < id_max(),
            goal.next_session_id < id_max(),
            rd.next_folder >= 0,
            rd.next_session >= 0,
        decreases n - pos,
    {
        let (a, b, nx) = next_line(&c, pos);
        let ghost l = c@.subrange(a as int, b as int);
        let ghost rest = lines(c@.skip(nx as int));
        proof {
            assert((seq![l] + rest).drop_first() =~= rest);
            assert((seq![l] + rest)[0] == l);
            let st = reader_state(rd);
            lemma_step_monotone(st, l);
            lemma_fold_monotone(moba_step(st, l), rest);
        }
        moba_step_exec(&mut rd, &c, a, b);
        pos = nx;
    }
    assert(c@.skip(n as int) =~= Seq::<char>::empty());
    let MobaReader { forward_lines, folders, sessions, next_session, warnings, .. } = rd;
    let mut sessions = sessions;
    let mut warnings = warnings;
    let mut next_id = next_session;
    let mut groups: Vec<SessionForwards> = Vec::new();
    let ghost fl = str_views(forward_lines@);
    let ghost agoal = moba_import(content@).1;
    assert(fl.skip(0) =~= fl);
    assert(session_forwards_views(groups@) =~= Seq::<SessionForwardsView>::empty());
    let mut k: usize = 0;
    while k < forward_lines.len()
        invariant
            k <= forward_lines@.len(),
            fl == str_views(forward_lines@),
            agoal == attach_fold(attach_state(sessions@, groups@, warnings@, next_id), fl.skip(k as int)),
            agoal.next_id < id_max(),
            next_id >= 0,
        decreases forward_lines.len() - k,
    {
        let ghost st = attach_state(sessions@, groups@, warnings@, next_id);
        proof {
            assert(fl.skip(k as int)[0] == forward_lines@[k as int]@);
            assert(fl.skip(k as int).drop_first() =~= fl.skip(k + 1));
            lemma_attach_monotone(attach_step(st, fl[k as int]), fl.skip(k + 1));
            lemma_attach_monotone(st, fl.skip(k as int));
        }
        attach_step_exec(&mut sessions, &mut groups, &mut warnings, &mut next_id, &forward_lines[k]);
        proof {
            let st2 = attach_step(st, fl[k as int]);
            assert(st.next_id <= st2.next_id) by {
                lemma_attach_monotone(st, seq![fl[k as int]]);
                assert(seq![fl[k as int]].drop_first() =~= Seq::<Seq<char>>::empty());
            }
        }
        k = k + 1;
    }
    assert(fl.skip(k as int) =~= Seq::<Seq<char>>::empty());
    let mut file = common::envelope(folders, sessions);
    file.session_forwards = groups;
    Parsed { file, warnings }
}

// ---------------------------------------------------------------------------
// Bounds on the file-local ids
// ---------------------------------------------------------------------------

proof fn lemma_trim_start_len(s: Seq<char>)
    ensures
        crate::text::trim_start(s).len() <= s.len(),
    decreases s.len(),
{
    if s.len() > 0 && crate::text::is_ws(s[0]) {
        lemma_trim_start_len(s.drop_first());
    }
}

proof fn lemma_trim_end_len(s: Seq<char>)
    ensures
        crate::text::trim_end(s).len() <= s.len(),
    decreases s.len(),
{
    if s.len() > 0 && crate::text::is_ws(s.last()) {
        lemma_trim_end_len(s.drop_last());
    }
}

proof fn lemma_trim_len(s: Seq<char>)
    ensures
        trim(s).len() <= s.len(),
{
    lemma_trim_start_len(s);
    lemma_trim_end_len(crate::text::trim_start(s));
}

proof fn lemma_trim_char_len(s: Seq<char>, c: char)
    ensures
        trim_char(s, c).len() <= s.len(),
{
    lemma_trim_start_char_len(s, c);
    lemma_trim_end_char_len(crate::text::trim_start_char(s, c), c);
}

proof fn lemma_trim_start_char_len(s: Seq<char>, c: char)
    ensures
        crate::text::trim_start_char(s, c).len() <= s.len(),
    decreases s.len(),
{
    if s.len() > 0 && s[0] == c {
        lemma_trim_start_char_len(s.drop_first(), c);
    }
}

proof fn lemma_trim_end_char_len(s: Seq<char>, c: char)
    ensures
        crate::text::trim_end_char(s, c).len() <= s.len(),
    decreases s.len(),
{
    if s.len() > 0 && s.last() == c {
        lemma_trim_end_char_len(s.drop_last(), c);
    }
}

proof fn lemma_split_len(s: Seq<char>, c: char)
    ensures
        split_pieces(s, c).len() <= s.len() + 1,
    decreases s.len(),
{
    let i = find_from(s, c, 0);
    if 0 <= i < s.len() {
        lemma_split_len(s.skip(i + 1), c);
    }
}

proof fn lemma_walk_growth(fs: FolderState, parts: Seq<Seq<char>>, acc: Seq<char>, parent: Option<i64>)
    ensures
        walk_parts(fs, parts, acc, parent).0.next_id <= fs.next_id + parts.len(),
    decreases parts.len(),
{
    if parts.len() > 0 {
        let part = parts[0];
        if part.len() == 0 {
            lemma_walk_growth(fs, parts.drop_first(), acc, parent);
        } else {
            let acc2 = if acc.len() > 0 {
                acc + "\\"@ + part
            } else {
                acc + part
            };
            match lookup(fs.index, acc2) {
                Some(id) => lemma_walk_growth(fs, parts.drop_first(), acc2, Some(id)),
                None => {
                    let id = fs.next_id + 1;
                    let f = FolderView { id: id as i64, parent_id: parent, name: part, sort_order: fs.folders.len() as i32 };
                    lemma_walk_growth(
                        FolderState { folders: fs.folders.push(f), index: fs.index.push((acc2, id as i64)), next_id: id },
                        parts.drop_first(),
                        acc2,
                        Some(id as i64),
                    );
                },
            }
        }
    }
}

proof fn lemma_ensure_growth(fs: FolderState, path: Seq<char>)
    ensures
        ensure_folder(fs, path).0.next_id <= fs.next_id + path.len() + 1,
{
    let p = trim_char(trim(path), '\\');
    lemma_trim_len(path);
    lemma_trim_char_len(trim(path), '\\');
    if p.len() > 0 {
        lemma_split_len(p, '\\');
        lemma_walk_growth(fs, split_pieces(p, '\\'), Seq::empty(), None);
    }
}

proof fn lemma_step_growth(st: MobaState, raw: Seq<char>, bound: nat)
    requires
        st.subrep.len() <= bound,
        raw.len() <= bound,
    ensures
        moba_step(st, raw).folders.next_id <= st.folders.next_id + bound + 1,
        moba_step(st, raw).next_session_id <= st.next_session_id + 1,
        moba_step(st, raw).subrep.len() <= bound,
        moba_step(st, raw).forward_lines.len() <= st.forward_lines.len() + 1,
{
    let line = trim(raw);
    lemma_trim_len(raw);
    if line.len() > 0 && line[0] != ';' && !(line.len() >= 2 && line[0] == '[' && line.last() == ']') && !st.in_portfwd
        && st.in_bookmarks {
        let e = find_from(line, '=', 0);
        if e < line.len() {
            crate::text::lemma_find_from(line, '=', 0);
            let value = line.skip(e + 1);
            lemma_trim_len(value);
            lemma_ensure_growth(st.folders, st.subrep);
        }
    }
}

/// The state after some lines grows the ids by at most a line's worth each.
proof fn lemma_fold_growth(st: MobaState, ls: Seq<Seq<char>>, bound: nat)
    requires
        st.subrep.len() <= bound,
        forall|k: int| 0 <= k < ls.len() ==> (#[trigger] ls[k]).len() <= bound,
    ensures
        moba_fold(st, ls).folders.next_id <= st.folders.next_id + ls.len() * (bound + 1),
        moba_fold(st, ls).next_session_id <= st.next_session_id + ls.len(),
        moba_fold(st, ls).forward_lines.len() <= st.forward_lines.len() + ls.len(),
    decreases ls.len(),
{
    if ls.len() > 0 {
        lemma_step_growth(st, ls[0], bound);
        let st2 = moba_step(st, ls[0]);
        assert forall|k: int| 0 <= k < ls.drop_first().len() implies (#[trigger] ls.drop_first()[k]).len() <= bound by {
            assert(ls.drop_first()[k] == ls[k + 1]);
        }
        lemma_fold_growth(st2, ls.drop_first(), bound);
        assert((ls.len() - 1) * (bound + 1) + (bound + 1) == ls.len() * (bound + 1)) by (nonlinear_arith);
    }
}

proof fn lemma_attach_growth(st: AttachState, ls: Seq<Seq<char>>)
    ensures
        attach_fold(st, ls).next_id <= st.next_id + ls.len(),
    decreases ls.len(),
{
    if ls.len() > 0 {
        lemma_attach_growth(attach_step(st, ls[0]), ls.drop_first());
    }
}

proof fn lemma_lines_short(s: Seq<char>)
    ensures
        lines(s).len() <= s.len(),
        forall|k: int| 0 <= k < lines(s).len() ==> (#[trigger] lines(s)[k]).len() <= s.len(),
    decreases s.len(),
{
    if s.len() > 0 {
        let i = find_from(s, '\n', 0);
        crate::text::lemma_find_from(s, '\n', 0);
        if 0 <= i < s.len() {
            let rest = s.skip(i + 1);
            lemma_lines_short(rest);
            let l = crate::text::strip_cr(s.take(i));
            let all = seq![l] + lines(rest);
            assert forall|k: int| 0 <= k < all.len() implies (#[trigger] all[k]).len() <= s.len() by {
                if k > 0 {
                    assert(all[k] == lines(rest)[k - 1]);
                }
            }
        }
    }
}

/// Files shorter than 2^31 characters give ids that fit in `i64` (each
/// line adds at most one session and a line's worth of folders).
pub proof fn lemma_short_files_fit(content: Seq<char>)
    requires
        content.len() < 0x8000_0000,
    ensures
        moba_fits(content),
{
    let n = content.len();
    let ls = lines(content);
    lemma_lines_short(content);
    let init = MobaState {
        subrep: Seq::empty(),
        in_bookmarks: false,
        in_portfwd: false,
        forward_lines: Seq::empty(),
        folders: FolderState { folders: Seq::empty(), index: Seq::empty(), next_id: 0 },
        sessions: Seq::empty(),
        next_session_id: 0,
        warnings: Seq::empty(),
    };
    lemma_fold_growth(init, ls, n);
    let r = moba_read(content);
    assert(ls.len() * (n + 1) <= n * (n + 1)) by (nonlinear_arith)
        requires
            ls.len() <= n,
    ;
    assert(n * (n + 1) < 0x7fff_ffff_ffff_ffff) by (nonlinear_arith)
        requires
            n < 0x8000_0000,
    ;
    lemma_attach_growth(
        AttachState { sessions: r.sessions, groups: Seq::empty(), warnings: r.warnings, next_id: r.next_session_id },
        r.forward_lines,
    );
}

/// Attaching tunnels only appends sessions: the sessions read from the
/// bookmarks stay as they were, and each session added for a tunnel's
/// gateway is an SSH session at the root that authenticates through the
/// agent, with a fresh id above every id given before it.
pub proof fn lemma_attach_appends_gateways(st: AttachState, ls: Seq<Seq<char>>)
    requires
        0 <= st.next_id,
        st.next_id + ls.len() < 0x7fff_ffff_ffff_ffff,
    ensures
        st.next_id <= attach_fold(st, ls).next_id <= st.next_id + ls.len(),
        attach_fold(st, ls).sessions.len() >= st.sessions.len(),
        attach_fold(st, ls).sessions.take(st.sessions.len() as int) == st.sessions,
        forall|j: int|
            st.sessions.len() <= j < attach_fold(st, ls).sessions.len() ==> {
                let s = #[trigger] attach_fold(st, ls).sessions[j];
                &&& s.protocol == "ssh"@
                &&& s.folder_id is None
                &&& s.auth_method == Some(common::auth_name(AuthView::Agent))
                &&& st.next_id < s.id <= attach_fold(st, ls).next_id
            },
        forall|j: int, k: int|
            st.sessions.len() <= j < k < attach_fold(st, ls).sessions.len() ==> (#[trigger] attach_fold(st, ls).sessions[j]).id
                < (#[trigger] attach_fold(st, ls).sessions[k]).id,
    decreases ls.len(),
{
    reveal_strlit("ssh");
    if ls.len() == 0 {
        assert(st.sessions.take(st.sessions.len() as int) =~= st.sessions);
    } else {
        let st1 = attach_step(st, ls[0]);
        assert(st1.next_id == st.next_id || st1.next_id == st.next_id + 1);
        assert(st1.sessions == st.sessions || (st1.sessions.len() == st.sessions.len() + 1 && st1.sessions.drop_last()
            == st.sessions && st1.sessions.last().protocol == "ssh"@ && st1.sessions.last().folder_id is None
            && st1.sessions.last().auth_method == Some(common::auth_name(AuthView::Agent)) && st1.sessions.last().id
            == st.next_id + 1 && st1.next_id == st.next_id + 1)) by {
            match tunnel_of(ls[0]) {
                TunnelView::Tunnel { user, host, port, fwd } => {
                    match find_gateway(st.sessions, host, port, 0) {
                        Some(i) => {},
                        None => {
                            assert(st1.sessions.drop_last() =~= st.sessions);
                        },
                    }
                },
                _ => {},
            }
        }
        lemma_attach_appends_gateways(st1, ls.drop_first());
        let r = attach_fold(st1, ls.drop_first());
        assert(r == attach_fold(st, ls));
        let n0 = st.sessions.len() as int;
        let n1 = st1.sessions.len() as int;
        assert(r.sessions.take(n0) =~= st.sessions) by {
            assert(r.sessions.take(n1) == st1.sessions);
            if n1 > n0 {
                assert forall|j: int| 0 <= j < n0 implies r.sessions[j] == st.sessions[j] by {
                    assert(r.sessions.take(n1)[j] == r.sessions[j]);
                    assert(st1.sessions.drop_last()[j] == st1.sessions[j]);
                }
            }
        }
        if n1 > n0 {
            assert(r.sessions[n0] == st1.sessions[n0]) by {
                assert(r.sessions.take(n1)[n0] == r.sessions[n0]);
            }
        }
    }
}

} // verus!
