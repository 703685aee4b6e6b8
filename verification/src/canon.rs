//! Id-free names for an environment's records, used to compare two
//! environments by content: a folder by its path of names, a session by
//! its name, protocol, host and port, a forward by its fields, and the
//! `known_hosts` text by its sorted, distinct key lines.
use vstd::prelude::*;
use crate::importers::common::decimal;
use crate::model::{opt_str, Folder, SavedForward, SavedSession};
use crate::backup::host_key_line;
use crate::listing::{text_lt, text_lt_exec};
use crate::text::{lines, next_line, owned, push_str, to_chars, trim, trim_range, trim_start_range};

verus! {

/// Most folders a path walks up through.
pub const MAX_FOLDER_DEPTH: u32 = 64;

/// Index of the first folder with id `id`, from `from` on.
pub open spec fn find_folder(fs: Seq<Folder>, id: i64, from: int) -> Option<int>
    decreases fs.len() - from,
{
    if from < 0 || from >= fs.len() {
        None
    } else if fs[from].id == id {
        Some(from)
    } else {
        find_folder(fs, id, from + 1)
    }
}

/// The names met walking up from folder `cur` (child first), through at
/// most `guard` folders, stopping at the root or at an unknown id.
pub open spec fn walk_up(fs: Seq<Folder>, cur: Option<i64>, guard: nat) -> Seq<Seq<char>>
    decreases guard,
{
    match cur {
        None => Seq::empty(),
        Some(fid) => if guard == 0 {
            Seq::empty()
        } else {
            match find_folder(fs, fid, 0) {
                None => Seq::empty(),
                Some(j) => seq![fs[j].name@] + walk_up(fs, fs[j].parent_id, (guard - 1) as nat),
            }
        },
    }
}

/// `parts` joined with `/`.
pub open spec fn join_slash(parts: Seq<Seq<char>>) -> Seq<char>
    decreases parts.len(),
{
    if parts.len() == 0 {
        Seq::empty()
    } else if parts.len() == 1 {
        parts[0]
    } else {
        join_slash(parts.drop_last()) + "/"@ + parts.last()
    }
}

/// The path of folder `id`: its ancestors' names, root first, joined by `/`.
pub open spec fn folder_path_of(fs: Seq<Folder>, id: i64) -> Seq<char> {
    join_slash(walk_up(fs, Some(id), MAX_FOLDER_DEPTH as nat).reverse())
}

fn find_folder_exec(fs: &Vec<Folder>, id: i64) -> (r: Option<usize>)
    ensures
        r matches Some(j) ==> j < fs@.len(),
        match r {
            Some(j) => find_folder(fs@, id, 0) == Some(j as int),
            None => find_folder(fs@, id, 0) is None,
        },
{
    let mut k: usize = 0;
    while k < fs.len()
        invariant
            k <= fs@.len(),
            find_folder(fs@, id, 0) == find_folder(fs@, id, k as int),
        decreases fs.len() - k,
    {
        if fs[k].id == id {
            return Some(k);
        }
        k = k + 1;
    }
    None
}

/// The path of folder `id` by names (`Parent/Child`), walking up through at
/// most `MAX_FOLDER_DEPTH` folders; empty when `id` is unknown.
pub fn folder_path(fs: &Vec<Folder>, id: i64) -> (r: String)
    ensures
        r@ == folder_path_of(fs@, id),
{
    let ghost all = walk_up(fs@, Some(id), MAX_FOLDER_DEPTH as nat);
    let mut parts: Vec<String> = Vec::new();
    let mut cur: Option<i64> = Some(id);
    let mut guard: u32 = 0;
    assert(Seq::<Seq<char>>::empty() + all =~= all);
    loop
        invariant
            guard <= MAX_FOLDER_DEPTH,
            all == Seq::new(parts@.len(), |i: int| parts@[i]@) + walk_up(fs@, cur, (MAX_FOLDER_DEPTH - guard) as nat),
        ensures
            walk_up(fs@, cur, (MAX_FOLDER_DEPTH - guard) as nat).len() == 0,
        decreases MAX_FOLDER_DEPTH - guard,
    {
        let ghost pv = Seq::new(parts@.len(), |i: int| parts@[i]@);
        match cur {
            None => break,
            Some(fid) => {
                if guard >= MAX_FOLDER_DEPTH {
                    break;
                }
                match find_folder_exec(fs, fid) {
                    None => break,
                    Some(j) => {
                        parts.push(fs[j].name.clone());
                        cur = fs[j].parent_id;
                        guard = guard + 1;
                        assert(Seq::new(parts@.len(), |i: int| parts@[i]@) =~= pv.push(fs@[j as int].name@));
                        assert(pv.push(fs@[j as int].name@) + walk_up(fs@, cur, (MAX_FOLDER_DEPTH - guard) as nat)
                            =~= pv + (seq![fs@[j as int].name@] + walk_up(
                            fs@,
                            cur,
                            (MAX_FOLDER_DEPTH - guard) as nat,
                        )));
                    },
                }
            },
        }
    }
    let ghost pv = Seq::new(parts@.len(), |i: int| parts@[i]@);
    assert(all =~= pv + walk_up(fs@, cur, (MAX_FOLDER_DEPTH - guard) as nat));
    assert(all =~= pv);
    let mut out = String::new();
    let n = parts.len();
    let mut k: usize = 0;
    assert(pv.reverse().take(0) =~= Seq::<Seq<char>>::empty());
    while k < n
        invariant
            n == parts@.len(),
            pv == Seq::new(parts@.len(), |i: int| parts@[i]@),
            k <= n,
            out@ == join_slash(pv.reverse().take(k as int)),
        decreases n - k,
    {
        let ghost t = pv.reverse().take(k + 1);
        assert(t.drop_last() =~= pv.reverse().take(k as int));
        assert(t.last() == parts@[n - 1 - k]@);
        if k > 0 {
            push_str(&mut out, "/");
        }
        push_str(&mut out, parts[n - 1 - k].as_str());
        k = k + 1;
    }
    assert(pv.reverse().take(n as int) =~= pv.reverse());
    out
}

/// Index of the first session with id `id`.
pub open spec fn find_session(ss: Seq<SavedSession>, id: i64, from: int) -> Option<int>
    decreases ss.len() - from,
{
    if from < 0 || from >= ss.len() {
        None
    } else if ss[from].id == id {
        Some(from)
    } else {
        find_session(ss, id, from + 1)
    }
}

/// The text of an optional string (`""` for none).
pub open spec fn or_empty(o: Option<Seq<char>>) -> Seq<char> {
    match o {
        Some(s) => s,
        None => Seq::empty(),
    }
}

/// The decimal text of an optional port (`""` for none).
pub open spec fn port_text(p: Option<u16>) -> Seq<char> {
    match p {
        Some(v) => decimal(v as nat),
        None => Seq::empty(),
    }
}

/// A session's identity: `name|protocol|host|port`.
pub open spec fn identity_of(s: SavedSession) -> Seq<char> {
    s.name@ + "|"@ + s.protocol@ + "|"@ + or_empty(opt_str(s.host)) + "|"@ + port_text(s.port)
}

fn push_opt(out: &mut String, o: &Option<String>)
    ensures
        final(out)@ == old(out)@ + or_empty(opt_str(*o)),
{
    match o {
        Some(s) => push_str(out, s.as_str()),
        None => {
            assert(old(out)@ + Seq::<char>::empty() =~= old(out)@);
        },
    }
}

fn push_port(out: &mut String, p: Option<u16>)
    ensures
        final(out)@ == old(out)@ + port_text(p),
{
    match p {
        Some(v) => {
            let d = crate::importers::common::u32_decimal(v as u32);
            push_str(out, d.as_str());
        },
        None => {
            assert(old(out)@ + Seq::<char>::empty() =~= old(out)@);
        },
    }
}

/// The identity (`name|protocol|host|port`) of the first session with id
/// `id`, if there is one.
pub fn session_identity(ss: &Vec<SavedSession>, id: i64) -> (r: Option<String>)
    ensures
        match find_session(ss@, id, 0) {
            Some(j) => r matches Some(t) && t@ == identity_of(ss@[j]),
            None => r is None,
        },
{
    let mut k: usize = 0;
    while k < ss.len()
        invariant
            k <= ss@.len(),
            find_session(ss@, id, 0) == find_session(ss@, id, k as int),
        decreases ss.len() - k,
    {
        if ss[k].id == id {
            let s = &ss[k];
            let mut out = owned(s.name.as_str());
            push_str(&mut out, "|");
            push_str(&mut out, s.protocol.as_str());
            push_str(&mut out, "|");
            push_opt(&mut out, &s.host);
            push_str(&mut out, "|");
            push_port(&mut out, s.port);
            return Some(out);
        }
        k = k + 1;
    }
    None
}

/// A forward's identity: `kind|bind_addr|bind_port|target_host|target_port`.
pub open spec fn forward_line_of(f: SavedForward) -> Seq<char> {
    f.kind@ + "|"@ + f.bind_addr@ + "|"@ + decimal(f.bind_port as nat) + "|"@ + or_empty(opt_str(f.target_host))
        + "|"@ + port_text(f.target_port)
}

/// The identity of a forward (`kind|bind_addr|bind_port|target_host|target_port`).
pub fn forward_line(f: &SavedForward) -> (r: String)
    ensures
        r@ == forward_line_of(*f),
{
    let mut out = owned(f.kind.as_str());
    push_str(&mut out, "|");
    push_str(&mut out, f.bind_addr.as_str());
    push_str(&mut out, "|");
    let d = crate::importers::common::u32_decimal(f.bind_port as u32);
    push_str(&mut out, d.as_str());
    push_str(&mut out, "|");
    push_opt(&mut out, &f.target_host);
    push_str(&mut out, "|");
    push_port(&mut out, f.target_port);
    out
}

/// `text_lt` is irreflexive.
pub proof fn lemma_text_lt_irreflexive(a: Seq<char>)
    ensures
        !text_lt(a, a),
    decreases a.len(),
{
    if a.len() > 0 {
        lemma_text_lt_irreflexive(a.drop_first());
    }
}

/// `text_lt` is transitive.
pub proof fn lemma_text_lt_transitive(a: Seq<char>, b: Seq<char>, c: Seq<char>)
    requires
        text_lt(a, b),
        text_lt(b, c),
    ensures
        text_lt(a, c),
    decreases a.len(),
{
    if a.len() > 0 && b.len() > 0 && c.len() > 0 && a[0] == b[0] && b[0] == c[0] {
        lemma_text_lt_transitive(a.drop_first(), b.drop_first(), c.drop_first());
    }
}

/// Two different texts are ordered one way or the other.
pub proof fn lemma_text_lt_total(a: Seq<char>, b: Seq<char>)
    requires
        a != b,
    ensures
        text_lt(a, b) || text_lt(b, a),
    decreases a.len(),
{
    if a.len() > 0 && b.len() > 0 && a[0] == b[0] {
        if a.drop_first() == b.drop_first() {
            assert(a =~= seq![a[0]] + a.drop_first());
            assert(b =~= seq![b[0]] + b.drop_first());
        }
        lemma_text_lt_total(a.drop_first(), b.drop_first());
    } else if a.len() == 0 && b.len() == 0 {
        assert(a =~= b);
    }
}

/// The key lines of a `known_hosts` text, trimmed, in order.
pub open spec fn key_lines(ls: Seq<Seq<char>>) -> Seq<Seq<char>> {
    ls.filter(|l: Seq<char>| host_key_line(l)).map_values(|l: Seq<char>| trim(l))
}

/// The texts of a vector of strings.
pub open spec fn texts(v: Seq<String>) -> Seq<Seq<char>> {
    Seq::new(v.len(), |i: int| v[i]@)
}

/// Strictly increasing in code point order (so each text once).
pub open spec fn strictly_sorted(v: Seq<Seq<char>>) -> bool {
    forall|i: int, j: int| 0 <= i < j < v.len() ==> text_lt(#[trigger] v[i], #[trigger] v[j])
}

/// Inserts `x` into the strictly sorted `out` (with its characters kept
/// beside it in `keys`) unless it is there already.
fn insert_sorted(out: &mut Vec<String>, keys: &mut Vec<Vec<char>>, x: Vec<char>)
    requires
        old(keys)@.len() == old(out)@.len(),
        forall|i: int| 0 <= i < old(keys)@.len() ==> (#[trigger] old(keys)@[i])@ == old(out)@[i]@,
        strictly_sorted(texts(old(out)@)),
    ensures
        final(keys)@.len() == final(out)@.len(),
        forall|i: int| 0 <= i < final(keys)@.len() ==> (#[trigger] final(keys)@[i])@ == final(out)@[i]@,
        strictly_sorted(texts(final(out)@)),
        forall|t: Seq<char>|
            (#[trigger] texts(final(out)@).contains(t)) <==> (texts(old(out)@).contains(t) || t == x@),
{
    let ghost ov = texts(out@);
    let mut k: usize = 0;
    while k < keys.len() && text_lt_exec(&keys[k], &x)
        invariant
            k <= keys@.len(),
            keys@.len() == out@.len(),
            keys@ == old(keys)@,
            out@ == old(out)@,
            ov == texts(out@),
            forall|i: int| 0 <= i < keys@.len() ==> (#[trigger] keys@[i])@ == out@[i]@,
            forall|i: int| 0 <= i < k ==> text_lt(#[trigger] ov[i], x@),
        decreases keys.len() - k,
    {
        assert(ov[k as int] == keys@[k as int]@);
        k = k + 1;
    }
    if k < keys.len() && crate::text::chars_eq(&keys[k], &x) {
        assert(ov[k as int] == x@);
        assert forall|t: Seq<char>| ov.contains(t) <==> (ov.contains(t) || t == x@) by {
            if t == x@ {
                assert(ov[k as int] == t);
            }
        }
        return;
    }
    proof {
        if k < keys@.len() {
            assert(ov[k as int] == keys@[k as int]@);
            lemma_text_lt_total(ov[k as int], x@);
        }
        assert forall|j: int| k <= j < ov.len() implies text_lt(x@, #[trigger] ov[j]) by {
            if j > k {
                lemma_text_lt_transitive(x@, ov[k as int], ov[j]);
            }
        }
    }
    let s = crate::text::string_from_chars(&x);
    out.insert(k, s);
    keys.insert(k, x);
    let ghost nv = texts(out@);
    assert(nv =~= ov.insert(k as int, x@));
    assert forall|i: int| 0 <= i < keys@.len() implies (#[trigger] keys@[i])@ == out@[i]@ by {
        if i < k {
            assert(keys@[i] == old(keys)@[i] && out@[i] == old(out)@[i]);
        } else if i > k {
            assert(keys@[i] == old(keys)@[i - 1] && out@[i] == old(out)@[i - 1]);
        }
    }
    assert forall|i: int, j: int| 0 <= i < j < nv.len() implies text_lt(#[trigger] nv[i], #[trigger] nv[j]) by {
        if j < k {
            assert(nv[i] == ov[i] && nv[j] == ov[j]);
        } else if j == k {
            assert(nv[i] == ov[i]);
        } else if i < k {
            assert(nv[i] == ov[i] && nv[j] == ov[j - 1]);
            lemma_text_lt_transitive(ov[i], x@, ov[j - 1]);
        } else if i == k {
            assert(nv[j] == ov[j - 1]);
        } else {
            assert(nv[i] == ov[i - 1] && nv[j] == ov[j - 1]);
        }
    }
    assert forall|t: Seq<char>| nv.contains(t) <==> (ov.contains(t) || t == x@) by {
        if nv.contains(t) {
            let q = choose|q: int| 0 <= q < nv.len() && nv[q] == t;
            if q < k {
                assert(ov[q] == t);
            } else if q > k {
                assert(ov[q - 1] == t);
            }
        }
        if ov.contains(t) {
            let q = choose|q: int| 0 <= q < ov.len() && ov[q] == t;
            if q < k {
                assert(nv[q] == t);
            } else {
                assert(nv[q + 1] == t);
            }
        }
        if t == x@ {
            assert(nv[k as int] == t);
        }
    }
}

/// The key lines of a `known_hosts` text (blank lines and comments left
/// out), trimmed, sorted in code point order, each once.
pub fn known_host_keys(text: &str) -> (r: Vec<String>)
    ensures
        strictly_sorted(texts(r@)),
        forall|t: Seq<char>|
            (#[trigger] texts(r@).contains(t)) <==> key_lines(lines(text@)).contains(t),
{
    let c = to_chars(text);
    let len = c.len();
    let mut out: Vec<String> = Vec::new();
    let mut keys: Vec<Vec<char>> = Vec::new();
    let mut pos: usize = 0;
    let ghost all = lines(c@);
    assert(c@.skip(0) =~= c@);
    proof {
        reveal(Seq::filter);
    }
    while pos < len
        invariant
            len == c@.len(),
            c@ == text@,
            pos <= len,
            all == lines(c@),
            keys@.len() == out@.len(),
            forall|i: int| 0 <= i < keys@.len() ==> (#[trigger] keys@[i])@ == out@[i]@,
            strictly_sorted(texts(out@)),
            forall|t: Seq<char>|
                (#[trigger] key_lines(all).contains(t)) <==> (texts(out@).contains(t)
                    || key_lines(lines(c@.skip(pos as int))).contains(t)),
        decreases len - pos,
    {
        let ghost before = texts(out@);
        let (a, b, nx) = next_line(&c, pos);
        let ghost l = c@.subrange(a as int, b as int);
        let ghost rest = lines(c@.skip(nx as int));
        let ghost here = lines(c@.skip(pos as int));
        assert(here == seq![l] + rest);
        proof {
            lemma_key_lines_cons(l, rest);
        }
        let (ta, tb) = trim_range(&c, a, b);
        let sa = trim_start_range(&c, a, b);
        if ta < tb && c[sa] != '#' {
            proof {
                reveal_strlit("#");
                assert(!crate::text::starts_with(crate::text::trim_start(l), "#"@)) by {
                    if crate::text::starts_with(crate::text::trim_start(l), "#"@) {
                        assert(crate::text::trim_start(l).take(1)[0] == '#');
                    }
                }
                assert(host_key_line(l));
            }
            let mut x: Vec<char> = Vec::new();
            let mut q: usize = ta;
            while q < tb
                invariant
                    ta <= q <= tb <= c@.len(),
                    x@ == c@.subrange(ta as int, q as int),
                decreases tb - q,
            {
                x.push(c[q]);
                q = q + 1;
            }
            assert(x@ == trim(l));
            let ghost xv = x@;
            insert_sorted(&mut out, &mut keys, x);
            assert forall|t: Seq<char>|
                (#[trigger] key_lines(all).contains(t)) <==> (texts(out@).contains(t) || key_lines(rest).contains(t)) by {
                let kr = key_lines(rest);
                let kh = seq![trim(l)] + kr;
                assert(key_lines(here) == kh);
                if kh.contains(t) {
                    let q = choose|q: int| 0 <= q < kh.len() && kh[q] == t;
                    if q > 0 {
                        assert(kr[q - 1] == t);
                    }
                }
                if kr.contains(t) {
                    let q = choose|q: int| 0 <= q < kr.len() && kr[q] == t;
                    assert(kh[q + 1] == t);
                }
                if t == trim(l) {
                    assert(kh[0] == t);
                }
            }
        } else {
            proof {
                reveal_strlit("#");
                if ta < tb {
                    assert(crate::text::trim_start(l).take(1) =~= "#"@);
                }
                assert(!host_key_line(l));
            }
        }
        pos = nx;
    }
    assert(c@.skip(len as int) =~= Seq::<char>::empty());
    assert(lines(Seq::<char>::empty()) =~= Seq::<Seq<char>>::empty());
    assert(key_lines(Seq::<Seq<char>>::empty()) =~= Seq::<Seq<char>>::empty());
    out
}

proof fn lemma_key_lines_cons(l: Seq<char>, rest: Seq<Seq<char>>)
    ensures
        key_lines(seq![l] + rest) == if host_key_line(l) {
            seq![trim(l)] + key_lines(rest)
        } else {
            key_lines(rest)
        },
{
    let p = |x: Seq<char>| host_key_line(x);
    assert((seq![l] + rest).filter(p) == seq![l].filter(p) + rest.filter(p)) by {
        Seq::filter_distributes_over_add(seq![l], rest, p);
    }
    reveal_with_fuel(Seq::filter, 2);
    assert(seq![l].drop_last() =~= Seq::<Seq<char>>::empty());
    if host_key_line(l) {
        assert(seq![l].filter(p) =~= seq![l]);
        assert((seq![l] + rest.filter(p)).map_values(|x: Seq<char>| trim(x)) =~= seq![trim(l)] + rest.filter(
            p,
        ).map_values(|x: Seq<char>| trim(x)));
    } else {
        assert(seq![l].filter(p) =~= Seq::<Seq<char>>::empty());
        assert(Seq::<Seq<char>>::empty() + rest.filter(p) =~= rest.filter(p));
    }
}

/// Two strictly sorted lists with the same members are the same list.
proof fn lemma_sorted_members_determine(x: Seq<Seq<char>>, y: Seq<Seq<char>>)
    requires
        strictly_sorted(x),
        strictly_sorted(y),
        forall|t: Seq<char>| x.contains(t) <==> y.contains(t),
    ensures
        x == y,
    decreases x.len(),
{
    if x.len() == 0 {
        if y.len() > 0 {
            assert(y.contains(y[0]));
        }
        assert(x =~= y);
    } else if y.len() == 0 {
        assert(x.contains(x[0]));
    } else {
        assert(x.contains(x[0]));
        assert(y.contains(y[0]));
        let qx = choose|q: int| 0 <= q < x.len() && x[q] == y[0];
        let qy = choose|q: int| 0 <= q < y.len() && y[q] == x[0];
        if x[0] != y[0] {
            lemma_text_lt_total(x[0], y[0]);
            if text_lt(x[0], y[0]) {
                // x[0] = y[qy] with qy > 0, so y[0] < x[0].
                assert(qy > 0);
                assert(text_lt(y[0], y[qy]));
                lemma_text_lt_transitive(x[0], y[0], x[0]);
                lemma_text_lt_irreflexive(x[0]);
            } else {
                assert(qx > 0);
                assert(text_lt(x[0], x[qx]));
                lemma_text_lt_transitive(y[0], x[0], y[0]);
                lemma_text_lt_irreflexive(y[0]);
            }
        }
        let xr = x.drop_first();
        let yr = y.drop_first();
        assert forall|t: Seq<char>| xr.contains(t) <==> yr.contains(t) by {
            if xr.contains(t) {
                let q = choose|q: int| 0 <= q < xr.len() && xr[q] == t;
                assert(x[q + 1] == t);
                assert(text_lt(x[0], t));
                assert(y.contains(t));
                let p = choose|p: int| 0 <= p < y.len() && y[p] == t;
                if p == 0 {
                    lemma_text_lt_irreflexive(t);
                }
                assert(yr[p - 1] == t);
            }
            if yr.contains(t) {
                let q = choose|q: int| 0 <= q < yr.len() && yr[q] == t;
                assert(y[q + 1] == t);
                assert(text_lt(y[0], t));
                assert(x.contains(t));
                let p = choose|p: int| 0 <= p < x.len() && x[p] == t;
                if p == 0 {
                    lemma_text_lt_irreflexive(t);
                }
                assert(xr[p - 1] == t);
            }
        }
        assert(strictly_sorted(xr)) by {
            assert forall|i: int, j: int| 0 <= i < j < xr.len() implies text_lt(#[trigger] xr[i], #[trigger] xr[j]) by {
                assert(xr[i] == x[i + 1] && xr[j] == x[j + 1]);
            }
        }
        assert(strictly_sorted(yr)) by {
            assert forall|i: int, j: int| 0 <= i < j < yr.len() implies text_lt(#[trigger] yr[i], #[trigger] yr[j]) by {
                assert(yr[i] == y[i + 1] && yr[j] == y[j + 1]);
            }
        }
        lemma_sorted_members_determine(xr, yr);
        assert(x =~= seq![x[0]] + xr);
        assert(y =~= seq![y[0]] + yr);
    }
}

/// The canonical key list of a `known_hosts` text depends only on which key
/// lines it holds, not on their order, repetition, surrounding blanks or the
/// comments between them.
pub proof fn lemma_known_hosts_order_free(a: Seq<char>, b: Seq<char>, ra: Seq<Seq<char>>, rb: Seq<Seq<char>>)
    requires
        forall|t: Seq<char>| key_lines(lines(a)).contains(t) <==> key_lines(lines(b)).contains(t),
        strictly_sorted(ra),
        forall|t: Seq<char>| ra.contains(t) <==> key_lines(lines(a)).contains(t),
        strictly_sorted(rb),
        forall|t: Seq<char>| rb.contains(t) <==> key_lines(lines(b)).contains(t),
    ensures
        ra == rb,
{
    lemma_sorted_members_determine(ra, rb);
}

/// In code point order, ties adjacent.
pub open spec fn sorted_texts(v: Seq<Seq<char>>) -> bool {
    forall|i: int, j: int| 0 <= i < j < v.len() ==> !text_lt(#[trigger] v[j], #[trigger] v[i])
}

/// The strings of `v` in code point order (the order of `str`'s `Ord`).
pub fn sort_texts(v: Vec<String>) -> (r: Vec<String>)
    ensures
        sorted_texts(texts(r@)),
        texts(r@).to_multiset() == texts(v@).to_multiset(),
{
    let ghost vs = texts(v@);
    let mut out: Vec<String> = Vec::new();
    let mut keys: Vec<Vec<char>> = Vec::new();
    let mut i: usize = 0;
    assert(vs.take(0) =~= Seq::<Seq<char>>::empty());
    assert(texts(out@) =~= Seq::<Seq<char>>::empty());
    while i < v.len()
        invariant
            i <= v@.len(),
            vs == texts(v@),
            keys@.len() == out@.len(),
            forall|q: int| 0 <= q < keys@.len() ==> (#[trigger] keys@[q])@ == out@[q]@,
            sorted_texts(texts(out@)),
            texts(out@).to_multiset() == vs.take(i as int).to_multiset(),
        decreases v.len() - i,
    {
        let x = to_chars(v[i].as_str());
        let ghost ov = texts(out@);
        let ghost ok = keys@;
        let mut k: usize = out.len();
        while k > 0 && text_lt_exec(&x, &keys[k - 1])
            invariant
                k <= keys@.len(),
                keys@ == ok,
                ov == texts(out@),
                keys@.len() == out@.len(),
                forall|q: int| 0 <= q < keys@.len() ==> (#[trigger] keys@[q])@ == out@[q]@,
                forall|q: int| k <= q < ov.len() ==> text_lt(x@, #[trigger] ov[q]),
            decreases k,
        {
            assert(ov[k - 1] == keys@[k - 1]@);
            k = k - 1;
        }
        proof {
            if k > 0 {
                assert(ov[k - 1] == keys@[k - 1]@);
                assert forall|q: int| 0 <= q < k implies !text_lt(x@, #[trigger] ov[q]) by {
                    if text_lt(x@, ov[q]) && q < k - 1 {
                        assert(!text_lt(ov[k - 1], ov[q]));
                        if ov[q] != ov[k - 1] {
                            lemma_text_lt_total(ov[q], ov[k - 1]);
                            lemma_text_lt_transitive(x@, ov[q], ov[k - 1]);
                        }
                    }
                }
            }
        }
        let s = crate::text::string_from_chars(&x);
        out.insert(k, s);
        keys.insert(k, x);
        let ghost nv = texts(out@);
        assert(nv =~= ov.insert(k as int, vs[i as int]));
        assert forall|q: int| 0 <= q < keys@.len() implies (#[trigger] keys@[q])@ == out@[q]@ by {
            if q < k {
                assert(keys@[q] == ok[q]);
            } else if q > k {
                assert(keys@[q] == ok[q - 1]);
            }
        }
        assert forall|a: int, b: int| 0 <= a < b < nv.len() implies !text_lt(#[trigger] nv[b], #[trigger] nv[a]) by {
            if b < k {
                assert(nv[a] == ov[a] && nv[b] == ov[b]);
            } else if b == k {
                assert(nv[a] == ov[a]);
            } else if a < k {
                assert(nv[a] == ov[a] && nv[b] == ov[b - 1]);
            } else if a == k {
                assert(nv[b] == ov[b - 1]);
                if text_lt(ov[b - 1], x@) {
                    lemma_text_lt_transitive(x@, ov[b - 1], x@);
                    lemma_text_lt_irreflexive(x@);
                }
            } else {
                assert(nv[a] == ov[a - 1] && nv[b] == ov[b - 1]);
            }
        }
        proof {
            vstd::seq_lib::to_multiset_insert(ov, k as int, vs[i as int]);
            assert(vs.take(i + 1) =~= vs.take(i as int).push(vs[i as int]));
            vstd::seq_lib::to_multiset_build(vs.take(i as int), vs[i as int]);
        }
        i = i + 1;
    }
    assert(vs.take(v@.len() as int) =~= vs);
    out
}

} // verus!
