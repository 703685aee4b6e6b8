//! OpenSSH `~/.ssh/config` → native export envelope.
//!
//! Supported per-`Host` directives: `HostName`, `User`, `Port`,
//! `IdentityFile` (key auth; `~/` expanded against the home directory) and
//! `ProxyJump` (first hop, resolved against the other aliases of the file).
//! `Host` lines with only wildcard or negated patterns, `Match` blocks and
//! every other directive are skipped, with a warning where it matters.
//! Reading files and following `Include` is left to the caller, which hands
//! over the `(key, value)` pairs of [`config_lines`].
use vstd::prelude::*;
use vstd::string::StringSliceAdditionalSpecFns;
use crate::importers::common::{self, key_options, Auth, AuthView};
use crate::model::{opt_str, str_views, ExportFile, SavedSession, SessionView, session_views};
use crate::text::{
    concat3, ends_with, find_char, is_whitespace, is_ws, lines, lower_range, lower_seq, next_line,
    owned, parse_u16_range, parse_uint, push_str, starts_with, string_from_range, to_chars,
    trim, trim_char, trim_end_char_range, trim_range, trim_start_char_range,
};

verus! {

// ---------------------------------------------------------------------------
// Lines
// ---------------------------------------------------------------------------

/// Index of the first key/value separator (`=`, space or tab) of `s`.
pub open spec fn sep_index(s: Seq<char>, i: int) -> int
    decreases s.len() - i,
{
    if i < 0 || i >= s.len() {
        s.len() as int
    } else if s[i] == '=' || s[i] == ' ' || s[i] == '\t' {
        i
    } else {
        sep_index(s, i + 1)
    }
}

/// A config line as `(key, value)`: blank lines and `#` comments give
/// nothing, nor does a line without a separator. `Key value`, `Key=value`
/// and quoted values are accepted.
pub open spec fn config_pair(raw: Seq<char>) -> Option<(Seq<char>, Seq<char>)> {
    let l = trim(raw);
    if l.len() == 0 || l[0] == '#' {
        None
    } else {
        let k = sep_index(l, 0);
        if k >= l.len() {
            None
        } else {
            Some((trim(l.take(k)), trim_char(trim(l.skip(k + 1)), '"')))
        }
    }
}

/// The `(key, value)` pairs of a run of lines, in order.
pub open spec fn config_pairs(ls: Seq<Seq<char>>) -> Seq<(Seq<char>, Seq<char>)>
    decreases ls.len(),
{
    if ls.len() == 0 {
        Seq::empty()
    } else {
        let rest = config_pairs(ls.drop_first());
        match config_pair(ls[0]) {
            Some(p) => seq![p] + rest,
            None => rest,
        }
    }
}

/// The views of a list of pairs.
pub open spec fn pair_views(v: Seq<(String, String)>) -> Seq<(Seq<char>, Seq<char>)> {
    Seq::new(v.len(), |i: int| (v[i].0@, v[i].1@))
}

fn config_pair_exec(c: &Vec<char>, lo: usize, hi: usize) -> (r: Option<(String, String)>)
    requires
        lo <= hi <= c@.len(),
    ensures
        match config_pair(c@.subrange(lo as int, hi as int)) {
            Some((k, v)) => r matches Some(p) && p.0@ == k && p.1@ == v,
            None => r is None,
        },
{
    let (a, b) = trim_range(c, lo, hi);
    let ghost l = c@.subrange(a as int, b as int);
    if a == b || c[a] == '#' {
        return None;
    }
    let mut k = a;
    while k < b && !(c[k] == '=' || c[k] == ' ' || c[k] == '\t')
        invariant
            a <= k <= b <= c@.len(),
            l == c@.subrange(a as int, b as int),
            sep_index(l, 0) == sep_index(l, k - a),
        decreases b - k,
    {
        assert(l[k - a] == c@[k as int]);
        k = k + 1;
    }
    if k == b {
        return None;
    }
    assert(l[k - a] == c@[k as int]);
    assert(l.take(k - a) =~= c@.subrange(a as int, k as int));
    assert(l.skip(k - a + 1) =~= c@.subrange(k + 1, b as int));
    let (ka, kb) = trim_range(c, a, k);
    let (va, vb) = trim_range(c, k + 1, b);
    let va2 = trim_start_char_range(c, va, vb, '"');
    let vb2 = trim_end_char_range(c, va2, vb, '"');
    Some((string_from_range(c, ka, kb), string_from_range(c, va2, vb2)))
}

/// The `(key, value)` pairs of a config file's text, `Include` lines
/// among them.
pub fn config_lines(content: &str) -> (r: Vec<(String, String)>)
    ensures
        pair_views(r@) == config_pairs(lines(content@)),
{
    let c = to_chars(content);
    let n = c.len();
    let mut out: Vec<(String, String)> = Vec::new();
    let mut pos: usize = 0;
    assert(c@.skip(0) =~= c@);
    while pos < n
        invariant
            n == c@.len(),
            c@ == content@,
            pos <= n,
            config_pairs(lines(content@)) == pair_views(out@) + config_pairs(lines(c@.skip(pos as int))),
        decreases n - pos,
    {
        let (a, b, nx) = next_line(&c, pos);
        let ghost l = c@.subrange(a as int, b as int);
        let ghost rest = lines(c@.skip(nx as int));
        assert((seq![l] + rest).drop_first() =~= rest);
        assert((seq![l] + rest)[0] == l);
        let ghost before = pair_views(out@);
        match config_pair_exec(&c, a, b) {
            Some(p) => {
                let ghost pv = (p.0@, p.1@);
                out.push(p);
                assert(pair_views(out@) =~= before.push(pv));
                assert(before + (seq![pv] + config_pairs(rest)) =~= before.push(pv) + config_pairs(rest));
            },
            None => {},
        }
        pos = nx;
    }
    assert(c@.skip(n as int) =~= Seq::<char>::empty());
    assert(pair_views(out@) + Seq::<(Seq<char>, Seq<char>)>::empty() =~= pair_views(out@));
    out
}

/// Whether `key` is `Include` (any case).
pub fn is_include(key: &str) -> (b: bool)
    ensures
        b == (lower_seq(key@) == "include"@),
{
    let k = to_chars(key);
    let l = lower_range(&k, 0, k.len());
    assert(k@.subrange(0, k@.len() as int) =~= k@);
    crate::text::chars_eq(&l, &to_chars("include"))
}

// ---------------------------------------------------------------------------
// Paths
// ---------------------------------------------------------------------------

/// Whether `c` is a path separator on some platform (`/`, or `\\` on
/// Windows).
pub open spec fn is_sep(c: char) -> bool {
    c == '/' || c == '\\'
}

/// Whether joining `rest` onto `base` is the plain case that `Path::join`
/// handles alike on every platform: `base` not empty, neither holding a
/// drive (`:`), `base` not starting with `\\` (no verbatim or UNC prefix),
/// and `rest` relative (not starting with a separator).
pub open spec fn plain_join(base: Seq<char>, rest: Seq<char>) -> bool {
    &&& base.len() > 0
    &&& !base.contains(':')
    &&& base[0] != '\\'
    &&& !rest.contains(':')
    &&& !(rest.len() > 0 && is_sep(rest[0]))
}

/// `r` is `base` then `rest` with one separator between them: the one that
/// ends `base`, or a `/` or `\\` put in.
pub open spec fn joined(base: Seq<char>, rest: Seq<char>, r: Seq<char>) -> bool {
    ||| (r == base + rest && base.len() > 0 && is_sep(base.last()))
    ||| r == base + seq!['/'] + rest
    ||| r == base + seq!['\\'] + rest
}

/// Joins `rest` onto the directory `base` and renders the path as text.
///
/// Trusted: `std::path::Path::join` and `Path::to_string_lossy`. As
/// `PathBuf::push` documents, a relative path is appended after a
/// separator (none is added when `base` already ends with one); which
/// separator depends on the platform, and so do absolute paths and drive or
/// verbatim prefixes, so the contract speaks only of the plain case. Text
/// that came from `&str` converts back without loss.
#[verifier::external_body]
pub(crate) fn path_join(base: &str, rest: &str) -> (r: String)
    ensures
        plain_join(base@, rest@) ==> joined(base@, rest@, r@),
{
    std::path::Path::new(base).join(rest).to_string_lossy().into_owned()
}

/// `~/rest` → `home` joined with `rest` (with one separator between them, in
/// the plain case); any other value is returned as is.
pub fn expand_home(value: &str, home: &str) -> (r: String)
    ensures
        !starts_with(value@, "~/"@) ==> r@ == value@,
        starts_with(value@, "~/"@) && plain_join(home@, value@.skip(2)) ==> joined(home@, value@.skip(2), r@),
{
    let v = to_chars(value);
    let n = v.len();
    if n >= 2 && v[0] == '~' && v[1] == '/' {
        proof {
            reveal_strlit("~/");
            assert(value@.take(2) =~= "~/"@);
        }
        let rest = string_from_range(&v, 2, n);
        assert(rest@ =~= value@.skip(2));
        path_join(home, rest.as_str())
    } else {
        proof {
            reveal_strlit("~/");
            if starts_with(value@, "~/"@) {
                assert(value@.take(2)[0] == '~');
                assert(value@.take(2)[1] == '/');
            }
        }
        owned(value)
    }
}

/// The `prefix*suffix` parts of a file name with a `*` (split at the first
/// one); `None` when it has none.
pub open spec fn glob_parts(name: Seq<char>) -> Option<(Seq<char>, Seq<char>)> {
    let i = crate::text::find_from(name, '*', 0);
    if i >= name.len() {
        None
    } else {
        Some((name.take(i), name.skip(i + 1)))
    }
}

/// Splits a file-name pattern at its first `*`.
pub fn glob_split(name: &str) -> (r: Option<(String, String)>)
    ensures
        match glob_parts(name@) {
            Some((p, s)) => r matches Some(x) && x.0@ == p && x.1@ == s,
            None => r is None,
        },
{
    let c = to_chars(name);
    let n = c.len();
    let i = find_char(&c, '*', 0, n);
    assert(c@.subrange(0, n as int) =~= c@);
    if i == n {
        return None;
    }
    assert(c@.take(i as int) =~= c@.subrange(0, i as int));
    assert(c@.skip(i + 1) =~= c@.subrange(i + 1, n as int));
    Some((string_from_range(&c, 0, i), string_from_range(&c, i + 1, n)))
}

/// Whether a directory entry `name` matches `prefix*suffix`.
pub open spec fn glob_match(name: &str, prefix: &str, suffix: &str) -> bool {
    &&& starts_with(name@, prefix@)
    &&& ends_with(name@, suffix@)
    &&& name.len() >= prefix.len() + suffix.len()
}

/// Whether `name` matches the pattern `prefix*suffix`.
pub fn glob_matches(name: &str, prefix: &str, suffix: &str) -> (b: bool)
    ensures
        b == glob_match(name, prefix, suffix),
{
    let c = to_chars(name);
    let n = c.len();
    assert(c@.subrange(0, n as int) =~= c@);
    crate::text::range_starts_with(&c, 0, n, &to_chars(prefix)) && crate::text::range_ends_with(
        &c,
        0,
        n,
        &to_chars(suffix),
    ) && name.len() >= prefix.len() && name.len() - prefix.len() >= suffix.len()
}

// ---------------------------------------------------------------------------
// Host blocks
// ---------------------------------------------------------------------------

/// A `Host` block being read.
#[derive(Debug, Clone)]
pub struct HostEntry {
    pub alias: String,
    pub hostname: Option<String>,
    pub user: Option<String>,
    pub port: Option<u16>,
    /// The first `IdentityFile`, as written.
    pub identity_file: Option<String>,
    pub proxy_jump: Option<String>,
}

/// Abstract host block.
pub struct HostView {
    pub alias: Seq<char>,
    pub hostname: Option<Seq<char>>,
    pub user: Option<Seq<char>>,
    pub port: Option<u16>,
    pub identity_file: Option<Seq<char>>,
    pub proxy_jump: Option<Seq<char>>,
}

impl View for HostEntry {
    type V = HostView;

    open spec fn view(&self) -> HostView {
        HostView {
            alias: self.alias@,
            hostname: opt_str(self.hostname),
            user: opt_str(self.user),
            port: self.port,
            identity_file: opt_str(self.identity_file),
            proxy_jump: opt_str(self.proxy_jump),
        }
    }
}

/// The views of a list of host blocks.
pub open spec fn host_views(v: Seq<HostEntry>) -> Seq<HostView> {
    Seq::new(v.len(), |i: int| v[i]@)
}

/// The whitespace-separated words of `s[i..]`, `cur` being the word in
/// progress (`str::split_whitespace`).
pub open spec fn words_from(s: Seq<char>, i: int, cur: Seq<char>) -> Seq<Seq<char>>
    decreases s.len() - i,
{
    if i < 0 || i >= s.len() {
        if cur.len() > 0 {
            seq![cur]
        } else {
            Seq::empty()
        }
    } else if is_ws(s[i]) {
        (if cur.len() > 0 {
            seq![cur]
        } else {
            Seq::empty()
        }) + words_from(s, i + 1, Seq::empty())
    } else {
        words_from(s, i + 1, cur.push(s[i]))
    }
}

/// Whether a `Host` pattern names one concrete host: no `*` or `?`, not a
/// negation.
pub open spec fn concrete_alias(w: Seq<char>) -> bool {
    &&& !w.contains('*')
    &&& !w.contains('?')
    &&& !(w.len() > 0 && w[0] == '!')
}

/// The first concrete alias among `ws`.
pub open spec fn first_alias(ws: Seq<Seq<char>>) -> Option<Seq<char>>
    decreases ws.len(),
{
    if ws.len() == 0 {
        None
    } else if concrete_alias(ws[0]) {
        Some(ws[0])
    } else {
        first_alias(ws.drop_first())
    }
}

/// Reader state: finished blocks, the block being filled (none inside a
/// `Match` block or a wildcard-only `Host`), skipped wildcard blocks, and
/// warnings.
pub struct HostState {
    pub hosts: Seq<HostView>,
    pub current: Option<HostView>,
    pub skipped: nat,
    pub warnings: Seq<Seq<char>>,
}

/// The finished blocks with the current one closed.
pub open spec fn flushed(st: HostState) -> Seq<HostView> {
    match st.current {
        Some(h) => st.hosts.push(h),
        None => st.hosts,
    }
}

/// The warning for a `Match` block.
pub open spec fn match_warning() -> Seq<char> {
    "bloque Match ignorado (config condicional no soportada)"@
}

/// One `(key, value)` pair.
pub open spec fn host_step(st: HostState, key: Seq<char>, value: Seq<char>) -> HostState {
    let k = lower_seq(key);
    if k == "host"@ {
        match first_alias(words_from(value, 0, Seq::empty())) {
            Some(a) => HostState {
                hosts: flushed(st),
                current: Some(
                    HostView { alias: a, hostname: None, user: None, port: None, identity_file: None, proxy_jump: None },
                ),
                ..st
            },
            None => HostState { hosts: flushed(st), current: None, skipped: st.skipped + 1, ..st },
        }
    } else if k == "match"@ {
        HostState { hosts: flushed(st), current: None, warnings: st.warnings.push(match_warning()), ..st }
    } else {
        match st.current {
            None => st,
            Some(h) => if k == "hostname"@ {
                HostState { current: Some(HostView { hostname: Some(value), ..h }), ..st }
            } else if k == "user"@ {
                HostState { current: Some(HostView { user: Some(value), ..h }), ..st }
            } else if k == "port"@ {
                match parse_uint(value, 10, 0xffff) {
                    Some(p) => HostState { current: Some(HostView { port: Some(p as u16), ..h }), ..st },
                    None => HostState {
                        warnings: st.warnings.push(
                            "host «"@ + h.alias + "»: Port «"@ + value + "» inválido, usando 22"@,
                        ),
                        ..st
                    },
                }
            } else if k == "identityfile"@ && h.identity_file is None {
                HostState { current: Some(HostView { identity_file: Some(value), ..h }), ..st }
            } else if k == "proxyjump"@ {
                HostState { current: Some(HostView { proxy_jump: Some(value), ..h }), ..st }
            } else {
                st
            },
        }
    }
}

/// Folds `host_step` over the pairs.
pub open spec fn host_fold(st: HostState, pairs: Seq<(Seq<char>, Seq<char>)>) -> HostState
    decreases pairs.len(),
{
    if pairs.len() == 0 {
        st
    } else {
        host_fold(host_step(st, pairs[0].0, pairs[0].1), pairs.drop_first())
    }
}

/// The host blocks of a config and the warnings of reading it (a count of
/// skipped wildcard blocks last).
pub open spec fn read_hosts_spec(pairs: Seq<(Seq<char>, Seq<char>)>) -> (Seq<HostView>, Seq<Seq<char>>) {
    let st = host_fold(HostState { hosts: Seq::empty(), current: None, skipped: 0, warnings: Seq::empty() }, pairs);
    (
        flushed(st),
        st.warnings + if st.skipped > 0 {
            seq![
                common::decimal(st.skipped) + " bloque(s) Host con comodines omitidos (son defaults, no hosts concretos)"@,
            ]
        } else {
            Seq::empty()
        },
    )
}

fn concrete_alias_exec(w: &Vec<char>) -> (b: bool)
    ensures
        b == concrete_alias(w@),
{
    if w.len() > 0 && w[0] == '!' {
        return false;
    }
    let mut i: usize = 0;
    while i < w.len()
        invariant
            i <= w@.len(),
            forall|k: int| 0 <= k < i ==> w@[k] != '*' && w@[k] != '?',
        decreases w.len() - i,
    {
        if w[i] == '*' || w[i] == '?' {
            assert(w@.contains(w@[i as int]));
            return false;
        }
        i = i + 1;
    }
    assert(!w@.contains('*'));
    assert(!w@.contains('?'));
    true
}

/// The first concrete alias of a `Host` line's value.
fn first_alias_exec(value: &str) -> (r: Option<String>)
    ensures
        opt_str(r) == first_alias(words_from(value@, 0, Seq::empty())),
{
    let v = to_chars(value);
    let n = v.len();
    let mut cur: Vec<char> = Vec::new();
    let mut i: usize = 0;
    while i < n
        invariant
            i <= n,
            n == v@.len(),
            v@ == value@,
            first_alias(words_from(value@, 0, Seq::empty())) == first_alias(words_from(v@, i as int, cur@)),
        decreases n - i,
    {
        if is_whitespace(v[i]) {
            let ghost rest = words_from(v@, i + 1, Seq::empty());
            if cur.len() > 0 {
                assert((seq![cur@] + rest)[0] == cur@);
                assert((seq![cur@] + rest).drop_first() =~= rest);
                if concrete_alias_exec(&cur) {
                    return Some(crate::text::string_from_chars(&cur));
                }
            } else {
                assert(Seq::<Seq<char>>::empty() + rest =~= rest);
            }
            cur = Vec::new();
        } else {
            cur.push(v[i]);
        }
        i = i + 1;
    }
    if cur.len() > 0 {
        assert(words_from(v@, n as int, cur@) == seq![cur@]);
        assert(seq![cur@].drop_first() =~= Seq::<Seq<char>>::empty());
        if concrete_alias_exec(&cur) {
            return Some(crate::text::string_from_chars(&cur));
        }
        assert(first_alias(seq![cur@]) == first_alias(Seq::<Seq<char>>::empty()));
    } else {
        assert(words_from(v@, n as int, cur@) == Seq::<Seq<char>>::empty());
    }
    None
}

/// The abstract reader state of the concrete accumulators.
pub open spec fn host_state(hosts: Seq<HostEntry>, current: Option<HostEntry>, skipped: usize, warnings: Seq<String>) -> HostState {
    HostState {
        hosts: host_views(hosts),
        current: match current {
            Some(h) => Some(h@),
            None => None,
        },
        skipped: skipped as nat,
        warnings: str_views(warnings),
    }
}

fn flush(hosts: &mut Vec<HostEntry>, current: &mut Option<HostEntry>)
    ensures
        host_views(final(hosts)@) == flushed(host_state(old(hosts)@, *old(current), 0, Seq::empty())),
        *final(current) is None,
{
    let taken = current.take();
    match taken {
        Some(h) => {
            let ghost before = hosts@;
            hosts.push(h);
            assert(host_views(hosts@) =~= host_views(before).push(h@));
        },
        None => {},
    }
}

fn lit_is(k: &Vec<char>, lit: &str) -> (b: bool)
    ensures
        b == (k@ == lit@),
{
    crate::text::chars_eq(k, &to_chars(lit))
}

/// Executable `host_step`.
fn host_step_exec(
    hosts: &mut Vec<HostEntry>,
    current: &mut Option<HostEntry>,
    skipped: &mut usize,
    warnings: &mut Vec<String>,
    key: &str,
    value: &str,
)
    requires
        *old(skipped) < usize::MAX,
    ensures
        host_state(final(hosts)@, *final(current), *final(skipped), final(warnings)@) == host_step(
            host_state(old(hosts)@, *old(current), *old(skipped), old(warnings)@),
            key@,
            value@,
        ),
{
    let kc = to_chars(key);
    let k = lower_range(&kc, 0, kc.len());
    assert(kc@.subrange(0, kc@.len() as int) =~= kc@);
    let ghost w0 = str_views(warnings@);
    if lit_is(&k, "host") {
        flush(hosts, current);
        match first_alias_exec(value) {
            Some(a) => {
                *current = Some(
                    HostEntry { alias: a, hostname: None, user: None, port: None, identity_file: None, proxy_jump: None },
                );
            },
            None => {
                *skipped = *skipped + 1;
            },
        }
        return;
    }
    if lit_is(&k, "match") {
        flush(hosts, current);
        warnings.push(owned("bloque Match ignorado (config condicional no soportada)"));
        assert(str_views(warnings@) =~= w0.push(match_warning()));
        return;
    }
    proof {
        reveal_strlit("host");
        reveal_strlit("match");
        reveal_strlit("hostname");
        reveal_strlit("user");
        reveal_strlit("port");
        reveal_strlit("identityfile");
        reveal_strlit("proxyjump");
    }
    match current {
        None => {},
        Some(h) => {
            if lit_is(&k, "hostname") {
                h.hostname = Some(owned(value));
            } else if lit_is(&k, "user") {
                h.user = Some(owned(value));
            } else if lit_is(&k, "port") {
                let vc = to_chars(value);
                assert(vc@.subrange(0, vc@.len() as int) =~= vc@);
                match parse_u16_range(&vc, 0, vc.len()) {
                    Some(p) => {
                        h.port = Some(p);
                    },
                    None => {
                        let mut w = owned("host «");
                        push_str(&mut w, h.alias.as_str());
                        push_str(&mut w, "»: Port «");
                        push_str(&mut w, value);
                        push_str(&mut w, "» inválido, usando 22");
                        warnings.push(w);
                        assert(str_views(warnings@) =~= w0.push(w@));
                    },
                }
            } else if lit_is(&k, "identityfile") && h.identity_file.is_none() {
                h.identity_file = Some(owned(value));
            } else if lit_is(&k, "proxyjump") {
                h.proxy_jump = Some(owned(value));
            }
        },
    }
}

/// Reads the host blocks of a config's `(key, value)` pairs; the warnings
/// end with the count of skipped wildcard blocks, if any.
pub fn read_hosts(pairs: &Vec<(String, String)>) -> (r: (Vec<HostEntry>, Vec<String>))
    ensures
        (host_views(r.0@), str_views(r.1@)) == read_hosts_spec(pair_views(pairs@)),
{
    let ghost pv = pair_views(pairs@);
    let mut hosts: Vec<HostEntry> = Vec::new();
    let mut current: Option<HostEntry> = None;
    let mut skipped: usize = 0;
    let mut warnings: Vec<String> = Vec::new();
    let ghost init = HostState { hosts: Seq::empty(), current: None, skipped: 0, warnings: Seq::empty() };
    assert(host_state(hosts@, current, skipped, warnings@) == init) by {
        assert(host_views(hosts@) =~= Seq::<HostView>::empty());
        assert(str_views(warnings@) =~= Seq::<Seq<char>>::empty());
    }
    let mut i: usize = 0;
    assert(pv.skip(0) =~= pv);
    while i < pairs.len()
        invariant
            i <= pairs@.len(),
            pv == pair_views(pairs@),
            skipped <= i,
            host_fold(init, pv) == host_fold(host_state(hosts@, current, skipped, warnings@), pv.skip(i as int)),
        decreases pairs.len() - i,
    {
        assert(pv.skip(i as int)[0] == (pairs@[i as int].0@, pairs@[i as int].1@));
        assert(pv.skip(i as int).drop_first() =~= pv.skip(i + 1));
        host_step_exec(&mut hosts, &mut current, &mut skipped, &mut warnings, pairs[i].0.as_str(), pairs[i].1.as_str());
        i = i + 1;
    }
    assert(pv.skip(i as int) =~= Seq::<(Seq<char>, Seq<char>)>::empty());
    let ghost st = host_state(hosts@, current, skipped, warnings@);
    flush(&mut hosts, &mut current);
    if skipped > 0 {
        let ghost w0 = str_views(warnings@);
        let mut w = common::usize_decimal(skipped);
        push_str(&mut w, " bloque(s) Host con comodines omitidos (son defaults, no hosts concretos)");
        warnings.push(w);
        assert(str_views(warnings@) =~= w0 + seq![w@]);
    } else {
        assert(str_views(warnings@) =~= str_views(warnings@) + Seq::<Seq<char>>::empty());
    }
    (hosts, warnings)
}

// ---------------------------------------------------------------------------
// Sessions
// ---------------------------------------------------------------------------

/// Result of a parse: the export envelope and the parser's warnings.
pub struct ParsedSshConfig {
    pub file: ExportFile,
    pub warnings: Vec<String>,
}

/// The session row of host block `i` (file-local id `i + 1`), with the
/// identity file as expanded and the resolved bastion.
pub open spec fn ssh_row(h: HostView, i: int, identity: Option<Seq<char>>, via: Option<i64>) -> SessionView {
    SessionView {
        id: (i + 1) as i64,
        folder_id: None,
        name: h.alias,
        protocol: "ssh"@,
        host: Some(
            match h.hostname {
                Some(x) => x,
                None => h.alias,
            },
        ),
        port: Some(
            match h.port {
                Some(p) => p,
                None => 22u16,
            },
        ),
        username: h.user,
        credential_id: None,
        options_json: match identity {
            Some(k) => key_options(k),
            None => "{}"@,
        },
        last_used_at: None,
        auth_method: Some(
            if identity is Some {
                "key"@
            } else {
                "agent"@
            },
        ),
        via_session_id: via,
        login_script_json: None,
        sort_order: i as i64,
    }
}

/// Index of the first host block whose alias is `hop`.
pub open spec fn alias_index(hosts: Seq<HostView>, hop: Seq<char>, from: int) -> Option<int>
    decreases hosts.len() - from,
{
    if from < 0 || from >= hosts.len() {
        None
    } else if hosts[from].alias == hop {
        Some(from)
    } else {
        alias_index(hosts, hop, from + 1)
    }
}

/// The bastion of host block `i` and the warnings its `ProxyJump` raises:
/// only the first hop counts, and only when it is an alias of the file.
pub open spec fn jump_of(hosts: Seq<HostView>, i: int) -> (Option<i64>, Seq<Seq<char>>) {
    let h = hosts[i];
    match h.proxy_jump {
        None => (None, Seq::empty()),
        Some(j) => if lower_seq(j) == "none"@ {
            (None, Seq::empty())
        } else {
            let hops = crate::text::split_pieces(j, ',');
            let w1: Seq<Seq<char>> = if hops.len() > 1 {
                seq![
                    "host «"@ + h.alias + "»: ProxyJump con "@ + common::decimal(hops.len())
                        + " saltos — solo se importa el primero"@,
                ]
            } else {
                Seq::empty()
            };
            let hop = trim(hops[0]);
            match alias_index(hosts, hop, 0) {
                Some(idx) => (Some((idx + 1) as i64), w1),
                None => (
                    None,
                    w1.push(
                        "host «"@ + h.alias + "»: ProxyJump «"@ + hop
                            + "» no es un alias del fichero — queda sin bastión"@,
                    ),
                ),
            }
        },
    }
}

/// The `ProxyJump` warnings of host blocks `i..`, in order.
pub open spec fn jump_warnings(hosts: Seq<HostView>, i: int) -> Seq<Seq<char>>
    decreases hosts.len() - i,
{
    if i < 0 || i >= hosts.len() {
        Seq::empty()
    } else {
        jump_of(hosts, i).1 + jump_warnings(hosts, i + 1)
    }
}

/// The views of optional strings.
pub open spec fn opt_views(v: Seq<Option<String>>) -> Seq<Option<Seq<char>>> {
    Seq::new(v.len(), |i: int| opt_str(v[i]))
}

/// The session rows of the host blocks, given each block's expanded
/// identity file.
pub open spec fn ssh_rows(hosts: Seq<HostView>, ids: Seq<Option<Seq<char>>>) -> Seq<SessionView> {
    Seq::new(hosts.len(), |i: int| ssh_row(hosts[i], i, ids[i], jump_of(hosts, i).0))
}

fn clone_opt(o: &Option<String>) -> (r: Option<String>)
    ensures
        opt_str(r) == opt_str(*o),
{
    match o {
        Some(s) => Some(s.clone()),
        None => None,
    }
}

/// The first hop of a `ProxyJump` value (trimmed) and the number of hops.
fn first_hop(j: &str) -> (r: (String, usize))
    ensures
        r.0@ == trim(crate::text::split_pieces(j@, ',')[0]),
        r.1 as int == crate::text::split_pieces(j@, ',').len(),
        r.1 >= 1,
{
    let jc = to_chars(j);
    let n = jc.len();
    assert(jc@.subrange(0, n as int) =~= jc@);
    let fr = crate::text::split_ranges(&jc, 0, n, ',');
    let ghost hops = crate::text::split_pieces(jc@, ',');
    proof {
        let i0 = crate::text::find_from(jc@, ',', 0);
        if 0 <= i0 < jc@.len() {
            assert((seq![jc@.take(i0)] + crate::text::split_pieces(jc@.skip(i0 + 1), ',')).len() >= 1);
        }
    }
    assert(hops.len() >= 1);
    assert(crate::text::range_views(jc@, fr@).len() == hops.len());
    assert(fr@.len() >= 1);
    let first = fr[0];
    assert(first == fr@[0]);
    assert(0 <= first.0 <= first.1 <= n);
    assert(crate::text::range_views(jc@, fr@)[0] == hops[0]);
    let (a, b) = trim_range(&jc, first.0, first.1);
    (string_from_range(&jc, a, b), fr.len())
}

/// Index of the first host block whose alias is `hop`.
fn alias_position(hosts: &Vec<HostEntry>, hop: &str) -> (r: Option<usize>)
    ensures
        match r {
            Some(k) => k < hosts@.len() && alias_index(host_views(hosts@), hop@, 0) == Some(k as int),
            None => alias_index(host_views(hosts@), hop@, 0) is None,
        },
{
    let ghost hv = host_views(hosts@);
    let hopc = to_chars(hop);
    let mut k: usize = 0;
    while k < hosts.len()
        invariant
            k <= hosts@.len(),
            hv == host_views(hosts@),
            hopc@ == hop@,
            alias_index(hv, hop@, 0) == alias_index(hv, hop@, k as int),
        decreases hosts.len() - k,
    {
        assert(hv[k as int] == hosts@[k as int]@);
        let ac = to_chars(hosts[k].alias.as_str());
        assert(ac@ == hv[k as int].alias);
        let same = crate::text::chars_eq(&ac, &hopc);
        assert(same == (hv[k as int].alias == hop@));
        if same {
            return Some(k);
        }
        k = k + 1;
    }
    None
}

/// Executable `jump_of`: the bastion id; the warnings are appended.
fn jump_exec(hosts: &Vec<HostEntry>, i: usize, warnings: &mut Vec<String>) -> (r: Option<i64>)
    requires
        i < hosts@.len(),
    ensures
        r == jump_of(host_views(hosts@), i as int).0,
        str_views(final(warnings)@) == str_views(old(warnings)@) + jump_of(host_views(hosts@), i as int).1,
{
    let ghost hv = host_views(hosts@);
    let ghost w0 = str_views(warnings@);
    assert(hv[i as int] == hosts@[i as int]@);
    let h = &hosts[i];
    match &h.proxy_jump {
        None => {
            assert(w0 + Seq::<Seq<char>>::empty() =~= w0);
            None
        },
        Some(j) => {
            let jc = to_chars(j.as_str());
            let n = jc.len();
            let jl = lower_range(&jc, 0, n);
            assert(jc@.subrange(0, n as int) =~= jc@);
            if lit_is(&jl, "none") {
                assert(w0 + Seq::<Seq<char>>::empty() =~= w0);
                return None;
            }
            let (hop, hn) = first_hop(j.as_str());
            let ghost w1s: Seq<Seq<char>> = if hn > 1 {
                seq![
                    "host «"@ + h.alias@ + "»: ProxyJump con "@ + common::decimal(hn as nat)
                        + " saltos — solo se importa el primero"@,
                ]
            } else {
                Seq::empty()
            };
            if hn > 1 {
                let mut w = owned("host «");
                push_str(&mut w, h.alias.as_str());
                push_str(&mut w, "»: ProxyJump con ");
                let d = common::usize_decimal(hn);
                push_str(&mut w, d.as_str());
                push_str(&mut w, " saltos — solo se importa el primero");
                warnings.push(w);
                assert(str_views(warnings@) =~= w0 + w1s);
            } else {
                assert(str_views(warnings@) =~= w0 + w1s);
            }
            let ghost w1 = str_views(warnings@);
            let nh = hosts.len();
            match alias_position(hosts, hop.as_str()) {
                Some(k) => {
                    assert(w1 == w0 + w1s);
                    assert(k < nh);
                    Some((k + 1) as i64)
                },
                None => {
                    let mut w = owned("host «");
                    push_str(&mut w, h.alias.as_str());
                    push_str(&mut w, "»: ProxyJump «");
                    push_str(&mut w, hop.as_str());
                    push_str(&mut w, "» no es un alias del fichero — queda sin bastión");
                    warnings.push(w);
                    assert(str_views(warnings@) =~= w0 + w1s.push(w@));
                    None
                },
            }
        },
    }
}

/// The session rows of `hosts`, with `identities[i]` the expanded identity
/// file of block `i`; `ProxyJump` warnings are added to `warnings`.
pub fn build_sessions(hosts: &Vec<HostEntry>, identities: &Vec<Option<String>>, warnings: Vec<String>) -> (r: ParsedSshConfig)
    requires
        identities@.len() == hosts@.len(),
    ensures
        session_views(r.file.sessions@) == ssh_rows(host_views(hosts@), opt_views(identities@)),
        str_views(r.warnings@) == str_views(warnings@) + jump_warnings(host_views(hosts@), 0),
        common::is_envelope(r.file, Seq::empty(), r.file.sessions@),
{
    let ghost hv = host_views(hosts@);
    let ghost ids = opt_views(identities@);
    let ghost rows = ssh_rows(hv, ids);
    let mut warnings = warnings;
    let ghost w0 = str_views(warnings@);
    let mut sessions: Vec<SavedSession> = Vec::new();
    let mut i: usize = 0;
    assert(w0 + Seq::<Seq<char>>::empty() =~= w0);
    while i < hosts.len()
        invariant
            i <= hosts@.len(),
            identities@.len() == hosts@.len(),
            hv == host_views(hosts@),
            ids == opt_views(identities@),
            rows == ssh_rows(hv, ids),
            session_views(sessions@) == rows.take(i as int),
            w0 + jump_warnings(hv, 0) == str_views(warnings@) + jump_warnings(hv, i as int),
        decreases hosts.len() - i,
    {
        let ghost wb = str_views(warnings@);
        let via = jump_exec(hosts, i, &mut warnings);
        assert(wb + jump_warnings(hv, i as int) =~= str_views(warnings@) + jump_warnings(hv, i + 1));
        assert(hv[i as int] == hosts@[i as int]@);
        assert(ids[i as int] == opt_str(identities@[i as int]));
        let h = &hosts[i];
        let (auth, opts) = match &identities[i] {
            Some(k) => (owned("key"), common::key_options_json(k.as_str())),
            None => (owned("agent"), owned("{}")),
        };
        let row = SavedSession {
            id: (i + 1) as i64,
            folder_id: None,
            name: h.alias.clone(),
            protocol: owned("ssh"),
            host: Some(
                match &h.hostname {
                    Some(x) => x.clone(),
                    None => h.alias.clone(),
                },
            ),
            port: Some(
                match h.port {
                    Some(p) => p,
                    None => 22,
                },
            ),
            username: clone_opt(&h.user),
            credential_id: None,
            options_json: opts,
            last_used_at: None,
            auth_method: Some(auth),
            via_session_id: via,
            login_script_json: None,
            sort_order: i as i64,
        };
        let ghost before = sessions@;
        sessions.push(row);
        assert(row@ == rows[i as int]);
        assert(session_views(sessions@) =~= rows.take(i + 1)) by {
            assert(session_views(sessions@) =~= session_views(before).push(row@));
        }
        i = i + 1;
    }
    assert(jump_warnings(hv, i as int) =~= Seq::<Seq<char>>::empty());
    assert(str_views(warnings@) + Seq::<Seq<char>>::empty() =~= str_views(warnings@));
    let file = common::envelope(Vec::new(), sessions);
    assert(file.folders@ =~= Seq::<crate::model::Folder>::empty());
    ParsedSshConfig { file, warnings }
}

/// Whether `ids` can be the expanded identity files of `hosts` against
/// `home`: one per block that has one, as `expansion_ok` says.
pub open spec fn expansions_of(hosts: Seq<HostView>, ids: Seq<Option<Seq<char>>>, home: Seq<char>) -> bool {
    &&& ids.len() == hosts.len()
    &&& forall|i: int| 0 <= i < hosts.len() ==> expansion_ok(hosts[i].identity_file, #[trigger] ids[i], home)
}

/// An identity file `raw` and its expansion `id`: both present or both
/// absent; equal unless `raw` starts with `~/`, and then (in the plain case)
/// `home` and the rest of `raw` with one separator between them.
pub open spec fn expansion_ok(raw: Option<Seq<char>>, id: Option<Seq<char>>, home: Seq<char>) -> bool {
    match raw {
        Some(r) => match id {
            Some(e) => {
                &&& !starts_with(r, "~/"@) ==> e == r
                &&& starts_with(r, "~/"@) && plain_join(home, r.skip(2)) ==> joined(home, r.skip(2), e)
            },
            None => false,
        },
        None => id is None,
    }
}

/// Imports the `(key, value)` pairs of a config (after `Include`s were
/// followed): one SSH session per concrete `Host` block, identity files
/// expanded against `home`, bastions resolved, and the warnings.
pub fn parse_config(pairs: &Vec<(String, String)>, home: &str) -> (r: ParsedSshConfig)
    ensures
        exists|ids: Seq<Option<Seq<char>>>|
            expansions_of(read_hosts_spec(pair_views(pairs@)).0, ids, home@) && #[trigger] ssh_rows(
                read_hosts_spec(pair_views(pairs@)).0,
                ids,
            ) == session_views(r.file.sessions@),
        str_views(r.warnings@) == read_hosts_spec(pair_views(pairs@)).1 + jump_warnings(
            read_hosts_spec(pair_views(pairs@)).0,
            0,
        ),
        common::is_envelope(r.file, Seq::empty(), r.file.sessions@),
{
    let (hosts, warnings) = read_hosts(pairs);
    let ghost hv = host_views(hosts@);
    let mut ids: Vec<Option<String>> = Vec::new();
    let mut i: usize = 0;
    while i < hosts.len()
        invariant
            i <= hosts@.len(),
            hv == host_views(hosts@),
            ids@.len() == i,
            forall|k: int| 0 <= k < i ==> expansion_ok(hv[k].identity_file, #[trigger] opt_views(ids@)[k], home@),
        decreases hosts.len() - i,
    {
        assert(hv[i as int] == hosts@[i as int]@);
        let e = match &hosts[i].identity_file {
            Some(raw) => Some(expand_home(raw.as_str(), home)),
            None => None,
        };
        let ghost before = ids@;
        ids.push(e);
        assert forall|k: int| 0 <= k < i + 1 implies expansion_ok(hv[k].identity_file, #[trigger] opt_views(ids@)[k], home@) by {
            if k < i {
                assert(opt_views(ids@)[k] == opt_views(before)[k]);
            }
        }
        i = i + 1;
    }
    let r = build_sessions(&hosts, &ids, warnings);
    assert(hv == read_hosts_spec(pair_views(pairs@)).0);
    assert(expansions_of(hv, opt_views(ids@), home@));
    assert(ssh_rows(read_hosts_spec(pair_views(pairs@)).0, opt_views(ids@)) == session_views(r.file.sessions@));
    r
}

proof fn lemma_alias_index_in_range(hosts: Seq<HostView>, hop: Seq<char>, from: int)
    requires
        0 <= from,
    ensures
        alias_index(hosts, hop, from) matches Some(k) ==> from <= k < hosts.len() && hosts[k].alias == hop,
    decreases hosts.len() - from,
{
    if from < hosts.len() && hosts[from].alias != hop {
        lemma_alias_index_in_range(hosts, hop, from + 1);
    }
}

/// A bastion always names a session of the same import: when row `i` has
/// `via_session_id` `v`, some row `j` of the import has id `v`, and its
/// name is the first hop of row `i`'s `ProxyJump`.
pub proof fn lemma_bastion_is_imported(hosts: Seq<HostView>, ids: Seq<Option<Seq<char>>>, i: int)
    requires
        0 <= i < hosts.len(),
        ids.len() == hosts.len(),
        hosts.len() < 0x7fff_ffff_ffff_ffff,
    ensures
        ssh_rows(hosts, ids)[i].via_session_id matches Some(v) ==> exists|j: int|
            0 <= j < hosts.len() && #[trigger] ssh_rows(hosts, ids)[j].id == v && ssh_rows(hosts, ids)[j].name
                == trim(crate::text::split_pieces(hosts[i].proxy_jump.unwrap(), ',')[0]),
{
    let rows = ssh_rows(hosts, ids);
    if let Some(v) = rows[i].via_session_id {
        let j = hosts[i].proxy_jump.unwrap();
        let hop = trim(crate::text::split_pieces(j, ',')[0]);
        lemma_alias_index_in_range(hosts, hop, 0);
        let k = alias_index(hosts, hop, 0).unwrap();
        assert(rows[k].id == v);
    }
}

/// Every session imported from an OpenSSH config has somewhere to connect:
/// the block's `HostName` when it gives one, else the block's alias (as
/// `ssh` itself does), on the block's `Port` or 22, over SSH. The session is
/// named after the alias, logs in as the block's `User`, and authenticates
/// through the agent unless an identity file is given.
pub proof fn lemma_imported_hosts(hosts: Seq<HostView>, ids: Seq<Option<Seq<char>>>)
    ensures
        ssh_rows(hosts, ids).len() == hosts.len(),
        forall|i: int|
            0 <= i < hosts.len() ==> {
                let r = #[trigger] ssh_rows(hosts, ids)[i];
                &&& r.host is Some
                &&& hosts[i].hostname is Some ==> r.host == hosts[i].hostname
                &&& hosts[i].hostname is None ==> r.host == Some(hosts[i].alias)
                &&& r.port is Some
                &&& hosts[i].port is Some ==> r.port == hosts[i].port
                &&& hosts[i].port is None ==> r.port == Some(22u16)
                &&& r.name == hosts[i].alias
                &&& r.protocol == "ssh"@
                &&& r.username == hosts[i].user
                &&& ids[i] is None ==> r.auth_method == Some("agent"@) && r.options_json == "{}"@
                &&& ids[i] is Some ==> r.auth_method == Some("key"@)
            },
{
}

} // verus!
