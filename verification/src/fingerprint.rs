//! The fingerprint of a bundle's content: the SHA-256, in hex, of a
//! canonical JSON text that names records by content (folder paths,
//! session identities) rather than by row id, lists each kind of record in
//! sorted order, and leaves out the time stamps, versions and the device.
use vstd::prelude::*;
use crate::backup::{Bundle, BundleSessionCredential, BundleVaultEntry};
use crate::canon::{
    folder_path, folder_path_of, forward_line, forward_line_of, identity_of, find_session, known_host_keys, key_lines,
    lemma_text_lt_irreflexive, lemma_text_lt_total, lemma_text_lt_transitive, session_identity, sort_texts, sorted_texts,
    strictly_sorted, texts,
};
use crate::hex::{hex_chars, hex_encode};
use crate::importers::common::{json_quote, json_string_literal};
use crate::listing::text_lt;
use crate::model::{opt_str, BroadcastGroup, ExportFile, Folder, HighlightRule, SavedSession, SessionForwards, Snippet};
use crate::text::{lines, owned, push_str};

verus! {

/// What SHA-256 makes of `data`: its 32-byte digest.
pub uninterp spec fn sha256_of(data: Seq<u8>) -> Seq<u8>;

/// The SHA-256 digest of `data`.
///
/// Trusted: `sha2::Sha256::digest` (through the `Digest` trait); the digest
/// is named `sha256_of`.
#[verifier::external_body]
fn sha256(data: &[u8]) -> (r: Vec<u8>)
    ensures
        r@ == sha256_of(data@),
{
    <sha2::Sha256 as sha2::Digest>::digest(data).to_vec()
}

// ---------------------------------------------------------------------------
// Sorted lists
// ---------------------------------------------------------------------------

/// Two sorted lists with the same members, counted, are the same list.
pub proof fn lemma_sorted_permutation_unique(x: Seq<Seq<char>>, y: Seq<Seq<char>>)
    requires
        sorted_texts(x),
        sorted_texts(y),
        x.to_multiset() == y.to_multiset(),
    ensures
        x == y,
    decreases x.len(),
{
    vstd::seq_lib::to_multiset_len(x);
    vstd::seq_lib::to_multiset_len(y);
    if x.len() == 0 {
        assert(x =~= y);
    } else {
        vstd::seq_lib::to_multiset_contains(x, x[0]);
        vstd::seq_lib::to_multiset_contains(y, y[0]);
        assert(x.contains(x[0]));
        assert(y.to_multiset().count(x[0]) > 0);
        vstd::seq_lib::to_multiset_contains(y, x[0]);
        assert(x.to_multiset().count(y[0]) > 0);
        vstd::seq_lib::to_multiset_contains(x, y[0]);
        let qy = choose|q: int| 0 <= q < y.len() && y[q] == x[0];
        let qx = choose|q: int| 0 <= q < x.len() && x[q] == y[0];
        if x[0] != y[0] {
            assert(qy != 0);
            assert(qx != 0);
            assert(!text_lt(y[qy], y[0]));
            assert(!text_lt(x[qx], x[0]));
            lemma_text_lt_total(x[0], y[0]);
        }
        vstd::seq_lib::to_multiset_remove(x, 0);
        vstd::seq_lib::to_multiset_remove(y, 0);
        assert(x.remove(0) =~= x.drop_first());
        assert(y.remove(0) =~= y.drop_first());
        let xr = x.drop_first();
        let yr = y.drop_first();
        assert(sorted_texts(xr)) by {
            assert forall|i: int, j: int| 0 <= i < j < xr.len() implies !text_lt(#[trigger] xr[j], #[trigger] xr[i]) by {
                assert(xr[i] == x[i + 1] && xr[j] == x[j + 1]);
            }
        }
        assert(sorted_texts(yr)) by {
            assert forall|i: int, j: int| 0 <= i < j < yr.len() implies !text_lt(#[trigger] yr[j], #[trigger] yr[i]) by {
                assert(yr[i] == y[i + 1] && yr[j] == y[j + 1]);
            }
        }
        lemma_sorted_permutation_unique(xr, yr);
        assert(x =~= seq![x[0]] + xr);
        assert(y =~= seq![y[0]] + yr);
    }
}

/// `v` in code point order (the one sorted list with `v`'s members).
pub open spec fn sorted_of(v: Seq<Seq<char>>) -> Seq<Seq<char>> {
    choose|t: Seq<Seq<char>>| sorted_texts(t) && t.to_multiset() == v.to_multiset()
}

/// `v` joined with commas.
pub open spec fn join_commas(v: Seq<Seq<char>>) -> Seq<char>
    decreases v.len(),
{
    if v.len() == 0 {
        Seq::empty()
    } else if v.len() == 1 {
        v[0]
    } else {
        join_commas(v.drop_last()) + ","@ + v.last()
    }
}

/// A JSON array of the already-rendered items `v`, in sorted order.
pub open spec fn jarray(v: Seq<Seq<char>>) -> Seq<char> {
    "["@ + join_commas(sorted_of(v)) + "]"@
}

/// A JSON string literal.
pub open spec fn jstr(s: Seq<char>) -> Seq<char> {
    json_string_literal(s)
}

/// An optional JSON string (`null` for none).
pub open spec fn jopt(o: Option<Seq<char>>) -> Seq<char> {
    match o {
        Some(s) => jstr(s),
        None => "null"@,
    }
}

/// A JSON boolean.
pub open spec fn jbool(b: bool) -> Seq<char> {
    if b {
        "true"@
    } else {
        "false"@
    }
}

/// The present values of `v`, in order.
pub open spec fn somes(v: Seq<Option<Seq<char>>>) -> Seq<Seq<char>>
    decreases v.len(),
{
    if v.len() == 0 {
        Seq::empty()
    } else {
        match v.last() {
            Some(s) => somes(v.drop_last()).push(s),
            None => somes(v.drop_last()),
        }
    }
}

fn json_opt(o: &Option<String>) -> (r: String)
    ensures
        r@ == jopt(opt_str(*o)),
{
    match o {
        Some(s) => json_quote(s.as_str()),
        None => owned("null"),
    }
}

fn json_bool(b: bool) -> (r: &'static str)
    ensures
        r@ == jbool(b),
{
    if b {
        "true"
    } else {
        "false"
    }
}

fn push_text(items: &mut Vec<String>, t: String)
    ensures
        texts(final(items)@) == texts(old(items)@).push(t@),
{
    items.push(t);
    assert(texts(items@) =~= texts(old(items)@).push(t@));
}

/// The JSON array of the rendered `items`, sorted.
fn json_array(items: Vec<String>) -> (r: String)
    ensures
        r@ == jarray(texts(items@)),
{
    let ghost v = texts(items@);
    let s = sort_texts(items);
    proof {
        lemma_sorted_permutation_unique(sorted_of(v), texts(s@));
    }
    let ghost sv = texts(s@);
    let mut out = owned("[");
    let mut k: usize = 0;
    assert(sv.take(0) =~= Seq::<Seq<char>>::empty());
    while k < s.len()
        invariant
            k <= s@.len(),
            sv == texts(s@),
            out@ == "["@ + join_commas(sv.take(k as int)),
        decreases s.len() - k,
    {
        let ghost t = sv.take(k + 1);
        assert(t.drop_last() =~= sv.take(k as int));
        assert(t.last() == s@[k as int]@);
        if k > 0 {
            push_str(&mut out, ",");
        } else {
            assert(join_commas(sv.take(0)) =~= Seq::<char>::empty());
        }
        push_str(&mut out, s[k].as_str());
        k = k + 1;
    }
    assert(sv.take(s@.len() as int) =~= sv);
    push_str(&mut out, "]");
    out
}

// ---------------------------------------------------------------------------
// Records
// ---------------------------------------------------------------------------

/// The folders, each by its path.
pub open spec fn folder_items(fs: Seq<Folder>) -> Seq<Seq<char>> {
    Seq::new(fs.len(), |i: int| jstr(folder_path_of(fs, fs[i].id)))
}

/// A setting as a `[key,value]` pair.
pub open spec fn setting_item(kv: (Seq<char>, Seq<char>)) -> Seq<char> {
    "["@ + jstr(kv.0) + ","@ + jstr(kv.1) + "]"@
}

/// The settings.
pub open spec fn setting_items(st: Seq<(String, String)>) -> Seq<Seq<char>> {
    Seq::new(st.len(), |i: int| setting_item((st[i].0@, st[i].1@)))
}

/// A vault entry.
pub open spec fn vault_item(e: BundleVaultEntry) -> Seq<char> {
    "{\"name\":"@ + jstr(e.name@) + ",\"username\":"@ + jopt(opt_str(e.username)) + ",\"secret\":"@ + jstr(e.secret@)
        + "}"@
}

/// The vault entries.
pub open spec fn vault_items(v: Seq<BundleVaultEntry>) -> Seq<Seq<char>> {
    Seq::new(v.len(), |i: int| vault_item(v[i]))
}

/// The key lines of the `known_hosts` text, sorted and distinct.
pub open spec fn host_items(kh: Option<String>) -> Seq<Seq<char>> {
    match kh {
        Some(t) => {
            let keys = choose|r: Seq<Seq<char>>| strictly_sorted(r) && r.to_set() == key_lines(lines(t@)).to_set();
            Seq::new(keys.len(), |i: int| jstr(keys[i]))
        },
        None => Seq::empty(),
    }
}

fn folder_list(fs: &Vec<Folder>) -> (r: String)
    ensures
        r@ == jarray(folder_items(fs@)),
{
    let mut items: Vec<String> = Vec::new();
    let mut i: usize = 0;
    while i < fs.len()
        invariant
            i <= fs@.len(),
            texts(items@) == folder_items(fs@).take(i as int),
        decreases fs.len() - i,
    {
        let p = folder_path(fs, fs[i].id);
        let q = json_quote(p.as_str());
        push_text(&mut items, q);
        assert(folder_items(fs@).take(i + 1) =~= folder_items(fs@).take(i as int).push(folder_items(fs@)[i as int]));
        i = i + 1;
    }
    assert(folder_items(fs@).take(i as int) =~= folder_items(fs@));
    json_array(items)
}

fn setting_list(st: &Vec<(String, String)>) -> (r: String)
    ensures
        r@ == jarray(setting_items(st@)),
{
    let mut items: Vec<String> = Vec::new();
    let mut i: usize = 0;
    while i < st.len()
        invariant
            i <= st@.len(),
            texts(items@) == setting_items(st@).take(i as int),
        decreases st.len() - i,
    {
        let mut t = owned("[");
        let k = json_quote(st[i].0.as_str());
        push_str(&mut t, k.as_str());
        push_str(&mut t, ",");
        let v = json_quote(st[i].1.as_str());
        push_str(&mut t, v.as_str());
        push_str(&mut t, "]");
        push_text(&mut items, t);
        assert(setting_items(st@).take(i + 1) =~= setting_items(st@).take(i as int).push(setting_items(st@)[i as int]));
        i = i + 1;
    }
    assert(setting_items(st@).take(i as int) =~= setting_items(st@));
    json_array(items)
}

fn vault_list(v: &Vec<BundleVaultEntry>) -> (r: String)
    ensures
        r@ == jarray(vault_items(v@)),
{
    let mut items: Vec<String> = Vec::new();
    let mut i: usize = 0;
    while i < v.len()
        invariant
            i <= v@.len(),
            texts(items@) == vault_items(v@).take(i as int),
        decreases v.len() - i,
    {
        let e = &v[i];
        let mut t = owned("{\"name\":");
        push_str(&mut t, json_quote(e.name.as_str()).as_str());
        push_str(&mut t, ",\"username\":");
        push_str(&mut t, json_opt(&e.username).as_str());
        push_str(&mut t, ",\"secret\":");
        push_str(&mut t, json_quote(e.secret.as_str()).as_str());
        push_str(&mut t, "}");
        push_text(&mut items, t);
        assert(vault_items(v@).take(i + 1) =~= vault_items(v@).take(i as int).push(vault_items(v@)[i as int]));
        i = i + 1;
    }
    assert(vault_items(v@).take(i as int) =~= vault_items(v@));
    json_array(items)
}

fn host_list(kh: &Option<String>) -> (r: String)
    ensures
        r@ == jarray(host_items(*kh)),
{
    let mut items: Vec<String> = Vec::new();
    match kh {
        Some(t) => {
            let keys = known_host_keys(t.as_str());
            let ghost kv = texts(keys@);
            assert(kv.to_set() =~= key_lines(lines(t@)).to_set());
            let ghost chosen = choose|r: Seq<Seq<char>>| strictly_sorted(r) && r.to_set() == key_lines(lines(t@)).to_set();
            proof {
                assert(forall|x: Seq<char>| chosen.contains(x) <==> chosen.to_set().contains(x));
                crate::canon::lemma_known_hosts_order_free(t@, t@, chosen, kv);
            }
            let mut i: usize = 0;
            while i < keys.len()
                invariant
                    i <= keys@.len(),
                    kv == texts(keys@),
                    chosen == kv,
                    texts(items@) == Seq::new(kv.len(), |j: int| jstr(kv[j])).take(i as int),
                decreases keys.len() - i,
            {
                push_text(&mut items, json_quote(keys[i].as_str()));
                assert(Seq::new(kv.len(), |j: int| jstr(kv[j])).take(i + 1) =~= Seq::new(kv.len(), |j: int| jstr(kv[j])).take(
                    i as int,
                ).push(jstr(kv[i as int])));
                i = i + 1;
            }
            assert(Seq::new(kv.len(), |j: int| jstr(kv[j])).take(i as int) =~= host_items(*kh));
        },
        None => {
            assert(texts(items@) =~= host_items(*kh));
        },
    }
    json_array(items)
}

/// The identity of the first session of `env` with id `id`, if any.
pub open spec fn ident(env: ExportFile, id: i64) -> Option<Seq<char>> {
    match find_session(env.sessions@, id, 0) {
        Some(j) => Some(identity_of(env.sessions@[j])),
        None => None,
    }
}

/// The path of an optional folder.
pub open spec fn fpath(env: ExportFile, f: Option<i64>) -> Option<Seq<char>> {
    match f {
        Some(id) => Some(folder_path_of(env.folders@, id)),
        None => None,
    }
}

/// A session, by identity, with its folder and bastion by name.
pub open spec fn session_item(env: ExportFile, s: SavedSession) -> Seq<char> {
    "{\"id\":"@ + jopt(ident(env, s.id)) + ",\"username\":"@ + jopt(opt_str(s.username)) + ",\"auth_method\":"@ + jopt(
        opt_str(s.auth_method),
    ) + ",\"options_json\":"@ + jstr(s.options_json@) + ",\"login_script_json\":"@ + jopt(
        opt_str(s.login_script_json),
    ) + ",\"folder\":"@ + jopt(fpath(env, s.folder_id)) + ",\"via\":"@ + jopt(
        match s.via_session_id {
            Some(v) => ident(env, v),
            None => None,
        },
    ) + "}"@
}

/// The sessions.
pub open spec fn session_items(env: ExportFile) -> Seq<Seq<char>> {
    Seq::new(env.sessions@.len(), |i: int| session_item(env, env.sessions@[i]))
}

/// The forwards of one session, sorted, under its identity (none when the
/// session is not in the export).
pub open spec fn forwards_item(env: ExportFile, sf: SessionForwards) -> Option<Seq<char>> {
    match ident(env, sf.session_id) {
        Some(id) => Some(
            "{\"session\":"@ + jstr(id) + ",\"forwards\":"@ + jarray(
                Seq::new(sf.forwards@.len(), |k: int| jstr(forward_line_of(sf.forwards@[k]))),
            ) + "}"@,
        ),
        None => None,
    }
}

/// The per-session forwards.
pub open spec fn forwards_items(env: ExportFile) -> Seq<Seq<char>> {
    somes(Seq::new(env.session_forwards@.len(), |i: int| forwards_item(env, env.session_forwards@[i])))
}

/// The quoted identity of a member, if it is in the export.
pub open spec fn member_item(env: ExportFile, id: i64) -> Option<Seq<char>> {
    match ident(env, id) {
        Some(t) => Some(jstr(t)),
        None => None,
    }
}

/// A group by name, with its members by identity, sorted.
pub open spec fn group_item(env: ExportFile, g: BroadcastGroup) -> Seq<char> {
    "{\"name\":"@ + jstr(g.name@) + ",\"members\":"@ + jarray(
        somes(Seq::new(g.session_ids@.len(), |k: int| member_item(env, g.session_ids@[k]))),
    ) + "}"@
}

/// The groups.
pub open spec fn group_items(env: ExportFile) -> Seq<Seq<char>> {
    Seq::new(env.broadcast_groups@.len(), |i: int| group_item(env, env.broadcast_groups@[i]))
}

/// A snippet.
pub open spec fn snippet_item(s: Snippet) -> Seq<char> {
    "{\"name\":"@ + jstr(s.name@) + ",\"platform\":"@ + jopt(opt_str(s.platform)) + ",\"content\":"@ + jstr(s.content@)
        + ",\"color\":"@ + jopt(opt_str(s.color)) + "}"@
}

/// The snippets.
pub open spec fn snippet_items(v: Seq<Snippet>) -> Seq<Seq<char>> {
    Seq::new(v.len(), |i: int| snippet_item(v[i]))
}

/// A highlight rule.
pub open spec fn rule_item(r: HighlightRule) -> Seq<char> {
    "{\"name\":"@ + jstr(r.name@) + ",\"pattern\":"@ + jstr(r.pattern@) + ",\"is_regex\":"@ + jbool(r.is_regex) + ",\"fg\":"@
        + jopt(opt_str(r.fg_color)) + ",\"bg\":"@ + jopt(opt_str(r.bg_color)) + ",\"bold\":"@ + jbool(r.bold)
        + ",\"underline\":"@ + jbool(r.underline) + ",\"enabled\":"@ + jbool(r.enabled) + "}"@
}

/// The highlight rules.
pub open spec fn rule_items(v: Seq<HighlightRule>) -> Seq<Seq<char>> {
    Seq::new(v.len(), |i: int| rule_item(v[i]))
}

/// A session credential under its session's identity (none when the
/// session is not in the export).
pub open spec fn cred_item(env: ExportFile, c: BundleSessionCredential) -> Option<Seq<char>> {
    match ident(env, c.session_id) {
        Some(id) => Some(
            "{\"session\":"@ + jstr(id) + ",\"vault_name\":"@ + jopt(opt_str(c.vault_name)) + ",\"kind\":"@ + jopt(
                opt_str(c.kind),
            ) + ",\"secret\":"@ + jopt(opt_str(c.secret)) + "}"@,
        ),
        None => None,
    }
}

/// The session credentials.
pub open spec fn cred_items(b: Bundle) -> Seq<Seq<char>> {
    somes(Seq::new(b.session_credentials@.len(), |i: int| cred_item(b.environment, b.session_credentials@[i])))
}

/// The canonical text of a bundle's content.
pub open spec fn canonical(b: Bundle) -> Seq<char> {
    let env = b.environment;
    "{\"folders\":"@ + jarray(folder_items(env.folders@)) + ",\"sessions\":"@ + jarray(session_items(env))
        + ",\"forwards\":"@ + jarray(forwards_items(env)) + ",\"groups\":"@ + jarray(group_items(env))
        + ",\"snippets\":"@ + jarray(snippet_items(env.snippets@)) + ",\"rules\":"@ + jarray(
        rule_items(env.highlight_rules@),
    ) + ",\"settings\":"@ + jarray(setting_items(b.settings@)) + ",\"vault\":"@ + jarray(vault_items(b.vault_entries@))
        + ",\"credentials\":"@ + jarray(cred_items(b)) + ",\"known_hosts\":"@ + jarray(host_items(b.known_hosts)) + "}"@
}

fn ident_exec(env: &ExportFile, id: i64) -> (r: Option<String>)
    ensures
        opt_str(r) == ident(*env, id),
{
    session_identity(&env.sessions, id)
}

fn fpath_exec(env: &ExportFile, f: Option<i64>) -> (r: Option<String>)
    ensures
        opt_str(r) == fpath(*env, f),
{
    match f {
        Some(id) => Some(folder_path(&env.folders, id)),
        None => None,
    }
}

fn session_list(env: &ExportFile) -> (r: String)
    ensures
        r@ == jarray(session_items(*env)),
{
    let ss = &env.sessions;
    let mut items: Vec<String> = Vec::new();
    let mut i: usize = 0;
    while i < ss.len()
        invariant
            i <= ss@.len(),
            ss == &env.sessions,
            texts(items@) == session_items(*env).take(i as int),
        decreases ss.len() - i,
    {
        let s = &ss[i];
        let mut t = owned("{\"id\":");
        push_str(&mut t, json_opt(&ident_exec(env, s.id)).as_str());
        push_str(&mut t, ",\"username\":");
        push_str(&mut t, json_opt(&s.username).as_str());
        push_str(&mut t, ",\"auth_method\":");
        push_str(&mut t, json_opt(&s.auth_method).as_str());
        push_str(&mut t, ",\"options_json\":");
        push_str(&mut t, json_quote(s.options_json.as_str()).as_str());
        push_str(&mut t, ",\"login_script_json\":");
        push_str(&mut t, json_opt(&s.login_script_json).as_str());
        push_str(&mut t, ",\"folder\":");
        push_str(&mut t, json_opt(&fpath_exec(env, s.folder_id)).as_str());
        push_str(&mut t, ",\"via\":");
        let via = match s.via_session_id {
            Some(v) => ident_exec(env, v),
            None => None,
        };
        push_str(&mut t, json_opt(&via).as_str());
        push_str(&mut t, "}");
        push_text(&mut items, t);
        assert(session_items(*env).take(i + 1) =~= session_items(*env).take(i as int).push(session_items(*env)[i as int]));
        i = i + 1;
    }
    assert(session_items(*env).take(i as int) =~= session_items(*env));
    json_array(items)
}

fn forwards_list(env: &ExportFile) -> (r: String)
    ensures
        r@ == jarray(forwards_items(*env)),
{
    let v = &env.session_forwards;
    let ghost m = Seq::new(env.session_forwards@.len(), |i: int| forwards_item(*env, env.session_forwards@[i]));
    let mut items: Vec<String> = Vec::new();
    let mut i: usize = 0;
    assert(m.take(0) =~= Seq::<Option<Seq<char>>>::empty());
    while i < v.len()
        invariant
            i <= v@.len(),
            v == &env.session_forwards,
            m == Seq::new(env.session_forwards@.len(), |i: int| forwards_item(*env, env.session_forwards@[i])),
            texts(items@) == somes(m.take(i as int)),
        decreases v.len() - i,
    {
        let sf = &v[i];
        assert(m.take(i + 1).drop_last() =~= m.take(i as int));
        assert(m.take(i + 1).last() == m[i as int]);
        match ident_exec(env, sf.session_id) {
            Some(id) => {
                let mut lines: Vec<String> = Vec::new();
                let mut k: usize = 0;
                while k < sf.forwards.len()
                    invariant
                        k <= sf.forwards@.len(),
                        texts(lines@) == Seq::new(sf.forwards@.len(), |k: int| jstr(forward_line_of(sf.forwards@[k]))).take(
                            k as int,
                        ),
                    decreases sf.forwards.len() - k,
                {
                    let l = forward_line(&sf.forwards[k]);
                    push_text(&mut lines, json_quote(l.as_str()));
                    assert(Seq::new(sf.forwards@.len(), |k: int| jstr(forward_line_of(sf.forwards@[k]))).take(k + 1)
                        =~= Seq::new(sf.forwards@.len(), |k: int| jstr(forward_line_of(sf.forwards@[k]))).take(
                        k as int,
                    ).push(jstr(forward_line_of(sf.forwards@[k as int]))));
                    k = k + 1;
                }
                assert(Seq::new(sf.forwards@.len(), |k: int| jstr(forward_line_of(sf.forwards@[k]))).take(k as int)
                    =~= Seq::new(sf.forwards@.len(), |k: int| jstr(forward_line_of(sf.forwards@[k]))));
                let mut t = owned("{\"session\":");
                push_str(&mut t, json_quote(id.as_str()).as_str());
                push_str(&mut t, ",\"forwards\":");
                push_str(&mut t, json_array(lines).as_str());
                push_str(&mut t, "}");
                push_text(&mut items, t);
            },
            None => {},
        }
        i = i + 1;
    }
    assert(m.take(i as int) =~= m);
    json_array(items)
}

fn group_list(env: &ExportFile) -> (r: String)
    ensures
        r@ == jarray(group_items(*env)),
{
    let gs = &env.broadcast_groups;
    let mut items: Vec<String> = Vec::new();
    let mut i: usize = 0;
    while i < gs.len()
        invariant
            i <= gs@.len(),
            gs == &env.broadcast_groups,
            texts(items@) == group_items(*env).take(i as int),
        decreases gs.len() - i,
    {
        let g = &gs[i];
        let ghost m = Seq::new(g.session_ids@.len(), |k: int| member_item(*env, g.session_ids@[k]));
        let mut members: Vec<String> = Vec::new();
        let mut k: usize = 0;
        assert(m.take(0) =~= Seq::<Option<Seq<char>>>::empty());
        while k < g.session_ids.len()
            invariant
                k <= g.session_ids@.len(),
                m == Seq::new(g.session_ids@.len(), |k: int| member_item(*env, g.session_ids@[k])),
                texts(members@) == somes(m.take(k as int)),
            decreases g.session_ids.len() - k,
        {
            assert(m.take(k + 1).drop_last() =~= m.take(k as int));
            assert(m.take(k + 1).last() == m[k as int]);
            match ident_exec(env, g.session_ids[k]) {
                Some(t) => push_text(&mut members, json_quote(t.as_str())),
                None => {},
            }
            k = k + 1;
        }
        assert(m.take(k as int) =~= m);
        let mut t = owned("{\"name\":");
        push_str(&mut t, json_quote(g.name.as_str()).as_str());
        push_str(&mut t, ",\"members\":");
        push_str(&mut t, json_array(members).as_str());
        push_str(&mut t, "}");
        push_text(&mut items, t);
        assert(group_items(*env).take(i + 1) =~= group_items(*env).take(i as int).push(group_items(*env)[i as int]));
        i = i + 1;
    }
    assert(group_items(*env).take(i as int) =~= group_items(*env));
    json_array(items)
}

fn snippet_list(v: &Vec<Snippet>) -> (r: String)
    ensures
        r@ == jarray(snippet_items(v@)),
{
    let mut items: Vec<String> = Vec::new();
    let mut i: usize = 0;
    while i < v.len()
        invariant
            i <= v@.len(),
            texts(items@) == snippet_items(v@).take(i as int),
        decreases v.len() - i,
    {
        let s = &v[i];
        let mut t = owned("{\"name\":");
        push_str(&mut t, json_quote(s.name.as_str()).as_str());
        push_str(&mut t, ",\"platform\":");
        push_str(&mut t, json_opt(&s.platform).as_str());
        push_str(&mut t, ",\"content\":");
        push_str(&mut t, json_quote(s.content.as_str()).as_str());
        push_str(&mut t, ",\"color\":");
        push_str(&mut t, json_opt(&s.color).as_str());
        push_str(&mut t, "}");
        push_text(&mut items, t);
        assert(snippet_items(v@).take(i + 1) =~= snippet_items(v@).take(i as int).push(snippet_items(v@)[i as int]));
        i = i + 1;
    }
    assert(snippet_items(v@).take(i as int) =~= snippet_items(v@));
    json_array(items)
}

fn rule_list(v: &Vec<HighlightRule>) -> (r: String)
    ensures
        r@ == jarray(rule_items(v@)),
{
    let mut items: Vec<String> = Vec::new();
    let mut i: usize = 0;
    while i < v.len()
        invariant
            i <= v@.len(),
            texts(items@) == rule_items(v@).take(i as int),
        decreases v.len() - i,
    {
        let r = &v[i];
        let mut t = owned("{\"name\":");
        push_str(&mut t, json_quote(r.name.as_str()).as_str());
        push_str(&mut t, ",\"pattern\":");
        push_str(&mut t, json_quote(r.pattern.as_str()).as_str());
        push_str(&mut t, ",\"is_regex\":");
        push_str(&mut t, json_bool(r.is_regex));
        push_str(&mut t, ",\"fg\":");
        push_str(&mut t, json_opt(&r.fg_color).as_str());
        push_str(&mut t, ",\"bg\":");
        push_str(&mut t, json_opt(&r.bg_color).as_str());
        push_str(&mut t, ",\"bold\":");
        push_str(&mut t, json_bool(r.bold));
        push_str(&mut t, ",\"underline\":");
        push_str(&mut t, json_bool(r.underline));
        push_str(&mut t, ",\"enabled\":");
        push_str(&mut t, json_bool(r.enabled));
        push_str(&mut t, "}");
        push_text(&mut items, t);
        assert(rule_items(v@).take(i + 1) =~= rule_items(v@).take(i as int).push(rule_items(v@)[i as int]));
        i = i + 1;
    }
    assert(rule_items(v@).take(i as int) =~= rule_items(v@));
    json_array(items)
}

fn cred_list(b: &Bundle) -> (r: String)
    ensures
        r@ == jarray(cred_items(*b)),
{
    let v = &b.session_credentials;
    let env = &b.environment;
    let ghost m = Seq::new(b.session_credentials@.len(), |i: int| cred_item(b.environment, b.session_credentials@[i]));
    let mut items: Vec<String> = Vec::new();
    let mut i: usize = 0;
    assert(m.take(0) =~= Seq::<Option<Seq<char>>>::empty());
    while i < v.len()
        invariant
            i <= v@.len(),
            v == &b.session_credentials,
            env == &b.environment,
            m == Seq::new(b.session_credentials@.len(), |i: int| cred_item(b.environment, b.session_credentials@[i])),
            texts(items@) == somes(m.take(i as int)),
        decreases v.len() - i,
    {
        let c = &v[i];
        assert(m.take(i + 1).drop_last() =~= m.take(i as int));
        assert(m.take(i + 1).last() == m[i as int]);
        match ident_exec(env, c.session_id) {
            Some(id) => {
                let mut t = owned("{\"session\":");
                push_str(&mut t, json_quote(id.as_str()).as_str());
                push_str(&mut t, ",\"vault_name\":");
                push_str(&mut t, json_opt(&c.vault_name).as_str());
                push_str(&mut t, ",\"kind\":");
                push_str(&mut t, json_opt(&c.kind).as_str());
                push_str(&mut t, ",\"secret\":");
                push_str(&mut t, json_opt(&c.secret).as_str());
                push_str(&mut t, "}");
                push_text(&mut items, t);
            },
            None => {},
        }
        i = i + 1;
    }
    assert(m.take(i as int) =~= m);
    json_array(items)
}

/// The canonical text of a bundle's content: folders by path, sessions by
/// identity, and each kind of record sorted, without ids, time stamps,
/// versions or the device.
pub fn canonical_text(b: &Bundle) -> (r: String)
    ensures
        r@ == canonical(*b),
{
    let env = &b.environment;
    let mut t = owned("{\"folders\":");
    push_str(&mut t, folder_list(&env.folders).as_str());
    push_str(&mut t, ",\"sessions\":");
    push_str(&mut t, session_list(env).as_str());
    push_str(&mut t, ",\"forwards\":");
    push_str(&mut t, forwards_list(env).as_str());
    push_str(&mut t, ",\"groups\":");
    push_str(&mut t, group_list(env).as_str());
    push_str(&mut t, ",\"snippets\":");
    push_str(&mut t, snippet_list(&env.snippets).as_str());
    push_str(&mut t, ",\"rules\":");
    push_str(&mut t, rule_list(&env.highlight_rules).as_str());
    push_str(&mut t, ",\"settings\":");
    push_str(&mut t, setting_list(&b.settings).as_str());
    push_str(&mut t, ",\"vault\":");
    push_str(&mut t, vault_list(&b.vault_entries).as_str());
    push_str(&mut t, ",\"credentials\":");
    push_str(&mut t, cred_list(b).as_str());
    push_str(&mut t, ",\"known_hosts\":");
    push_str(&mut t, host_list(&b.known_hosts).as_str());
    push_str(&mut t, "}");
    t
}

/// The fingerprint of a bundle: the hex SHA-256 of the UTF-8 bytes of its
/// canonical text.
pub fn fingerprint(b: &Bundle) -> (r: String)
    ensures
        r@ == hex_chars(sha256_of(vstd::utf8::encode_utf8(canonical(*b)))),
{
    let t = canonical_text(b);
    let bytes = t.as_str().as_bytes();
    let d = sha256(bytes);
    hex_encode(d.as_slice())
}

// ---------------------------------------------------------------------------
// Laws
// ---------------------------------------------------------------------------

proof fn lemma_ms_split<A>(v: Seq<A>, q: int)
    requires
        0 <= q < v.len(),
    ensures
        v.to_multiset() == v.remove(q).to_multiset().insert(v[q]),
{
    broadcast use vstd::multiset::group_multiset_axioms;
    vstd::seq_lib::to_multiset_remove(v, q);
    vstd::seq_lib::to_multiset_contains(v, v[q]);
    assert(v.contains(v[q]));
    assert(v.to_multiset() =~= v.to_multiset().remove(v[q]).insert(v[q]));
}

proof fn lemma_ms_find<A>(v1: Seq<A>, v2: Seq<A>) -> (q: int)
    requires
        v1.len() > 0,
        v1.to_multiset() == v2.to_multiset(),
    ensures
        0 <= q < v2.len(),
        v2[q] == v1.last(),
        v1.drop_last().to_multiset() == v2.remove(q).to_multiset(),
{
    broadcast use vstd::multiset::group_multiset_axioms;
    let x = v1.last();
    assert(v1.contains(x)) by {
        assert(v1[v1.len() - 1] == x);
    }
    vstd::seq_lib::to_multiset_contains(v1, x);
    vstd::seq_lib::to_multiset_contains(v2, x);
    let q = choose|q: int| 0 <= q < v2.len() && v2[q] == x;
    lemma_ms_split(v2, q);
    assert(v1.remove(v1.len() - 1) =~= v1.drop_last());
    lemma_ms_split(v1, v1.len() - 1);
    let m1 = v1.drop_last().to_multiset();
    let m2 = v2.remove(q).to_multiset();
    assert forall|y: A| m1.count(y) == m2.count(y) by {
        assert(m1.insert(x).count(y) == m2.insert(x).count(y));
    }
    assert(m1 =~= m2);
    q
}

/// Mapping keeps two lists with the same members (counted) alike.
proof fn lemma_map_permutation<A, B>(v1: Seq<A>, v2: Seq<A>, f: spec_fn(A) -> B)
    requires
        v1.to_multiset() == v2.to_multiset(),
    ensures
        Seq::new(v1.len(), |i: int| f(v1[i])).to_multiset() == Seq::new(v2.len(), |i: int| f(v2[i])).to_multiset(),
    decreases v1.len(),
{
    broadcast use vstd::multiset::group_multiset_axioms;
    vstd::seq_lib::to_multiset_len(v1);
    vstd::seq_lib::to_multiset_len(v2);
    if v1.len() == 0 {
        assert(Seq::new(v1.len(), |i: int| f(v1[i])) =~= Seq::<B>::empty());
        assert(Seq::new(v2.len(), |i: int| f(v2[i])) =~= Seq::<B>::empty());
    } else {
        let q = lemma_ms_find(v1, v2);
        let d1 = v1.drop_last();
        let d2 = v2.remove(q);
        lemma_map_permutation(d1, d2, f);
        let m1 = Seq::new(v1.len(), |i: int| f(v1[i]));
        let m2 = Seq::new(v2.len(), |i: int| f(v2[i]));
        assert(m1.drop_last() =~= Seq::new(d1.len(), |i: int| f(d1[i])));
        assert(m2.remove(q) =~= Seq::new(d2.len(), |i: int| f(d2[i])));
        lemma_ms_split(m1, m1.len() - 1);
        assert(m1.remove(m1.len() - 1) =~= m1.drop_last());
        lemma_ms_split(m2, q);
    }
}

proof fn lemma_somes_add(a: Seq<Option<Seq<char>>>, b: Seq<Option<Seq<char>>>)
    ensures
        somes(a + b) == somes(a) + somes(b),
    decreases b.len(),
{
    if b.len() == 0 {
        assert(a + b =~= a);
        assert(somes(a) + somes(b) =~= somes(a));
    } else {
        lemma_somes_add(a, b.drop_last());
        assert((a + b).drop_last() =~= a + b.drop_last());
        assert((a + b).last() == b.last());
        match b.last() {
            Some(x) => {
                assert(somes(a) + somes(b.drop_last()).push(x) =~= (somes(a) + somes(b.drop_last())).push(x));
            },
            None => {},
        }
    }
}

proof fn lemma_somes_remove(v: Seq<Option<Seq<char>>>, q: int)
    requires
        0 <= q < v.len(),
    ensures
        somes(v).to_multiset() == match v[q] {
            Some(x) => somes(v.remove(q)).to_multiset().insert(x),
            None => somes(v.remove(q)).to_multiset(),
        },
{
    broadcast use vstd::multiset::group_multiset_axioms;
    let a = v.take(q);
    let b = v.skip(q + 1);
    assert(v =~= a + seq![v[q]] + b);
    assert(v.remove(q) =~= a + b);
    lemma_somes_add(a + seq![v[q]], b);
    lemma_somes_add(a, seq![v[q]]);
    lemma_somes_add(a, b);
    assert(seq![v[q]].drop_last() =~= Seq::<Option<Seq<char>>>::empty());
    assert(seq![v[q]].last() == v[q]);
    assert(somes(Seq::<Option<Seq<char>>>::empty()) =~= Seq::<Seq<char>>::empty());
    vstd::seq_lib::lemma_multiset_commutative(somes(a), somes(b));
    vstd::seq_lib::lemma_multiset_commutative(somes(a) + somes(seq![v[q]]), somes(b));
    vstd::seq_lib::lemma_multiset_commutative(somes(a), somes(seq![v[q]]));
    match v[q] {
        Some(x) => {
            assert(somes(seq![v[q]]) =~= seq![x]);
            assert(seq![x].to_multiset() =~= vstd::multiset::Multiset::empty().insert(x)) by {
                vstd::seq_lib::to_multiset_build(Seq::<Seq<char>>::empty(), x);
                assert(Seq::<Seq<char>>::empty().push(x) =~= seq![x]);
                assert(Seq::<Seq<char>>::empty().to_multiset() =~= vstd::multiset::Multiset::empty()) by {
                    vstd::seq_lib::to_multiset_len(Seq::<Seq<char>>::empty());
                }
            }
            assert(somes(v).to_multiset() =~= somes(v.remove(q)).to_multiset().insert(x));
        },
        None => {
            assert(somes(seq![v[q]]) =~= Seq::<Seq<char>>::empty());
            assert(somes(a) + Seq::<Seq<char>>::empty() =~= somes(a));
        },
    }
}

/// Keeping the present values keeps two lists with the same members alike.
proof fn lemma_somes_permutation(v1: Seq<Option<Seq<char>>>, v2: Seq<Option<Seq<char>>>)
    requires
        v1.to_multiset() == v2.to_multiset(),
    ensures
        somes(v1).to_multiset() == somes(v2).to_multiset(),
    decreases v1.len(),
{
    vstd::seq_lib::to_multiset_len(v1);
    vstd::seq_lib::to_multiset_len(v2);
    if v1.len() == 0 {
        assert(v2.len() == 0);
    } else {
        let q = lemma_ms_find(v1, v2);
        lemma_somes_permutation(v1.drop_last(), v2.remove(q));
        lemma_somes_remove(v2, q);
        lemma_somes_remove(v1, v1.len() - 1);
        assert(v1.remove(v1.len() - 1) =~= v1.drop_last());
    }
}

proof fn lemma_jarray_permutation(v1: Seq<Seq<char>>, v2: Seq<Seq<char>>)
    requires
        v1.to_multiset() == v2.to_multiset(),
    ensures
        jarray(v1) == jarray(v2),
{
}

proof fn lemma_map_jarray<A>(v1: Seq<A>, v2: Seq<A>, f: spec_fn(A) -> Seq<char>, x1: Seq<Seq<char>>, x2: Seq<Seq<char>>)
    requires
        v1.to_multiset() == v2.to_multiset(),
        x1 == Seq::new(v1.len(), |i: int| f(v1[i])),
        x2 == Seq::new(v2.len(), |i: int| f(v2[i])),
    ensures
        jarray(x1) == jarray(x2),
{
    lemma_map_permutation(v1, v2, f);
}

proof fn lemma_somes_jarray<A>(
    v1: Seq<A>,
    v2: Seq<A>,
    f: spec_fn(A) -> Option<Seq<char>>,
    x1: Seq<Seq<char>>,
    x2: Seq<Seq<char>>,
)
    requires
        v1.to_multiset() == v2.to_multiset(),
        x1 == somes(Seq::new(v1.len(), |i: int| f(v1[i]))),
        x2 == somes(Seq::new(v2.len(), |i: int| f(v2[i]))),
    ensures
        jarray(x1) == jarray(x2),
{
    lemma_map_permutation(v1, v2, f);
    lemma_somes_permutation(Seq::new(v1.len(), |i: int| f(v1[i])), Seq::new(v2.len(), |i: int| f(v2[i])));
}

/// Environments whose sessions and folders resolve alike.
pub open spec fn same_lookups(e1: ExportFile, e2: ExportFile) -> bool {
    &&& forall|id: i64| #[trigger] ident(e1, id) == ident(e2, id)
    &&& forall|f: i64| #[trigger] folder_path_of(e1.folders@, f) == folder_path_of(e2.folders@, f)
}

proof fn lemma_env_parts(e1: ExportFile, e2: ExportFile)
    requires
        same_lookups(e1, e2),
        e1.folders@.to_multiset() == e2.folders@.to_multiset(),
        e1.sessions@.to_multiset() == e2.sessions@.to_multiset(),
        e1.session_forwards@.to_multiset() == e2.session_forwards@.to_multiset(),
        e1.broadcast_groups@.to_multiset() == e2.broadcast_groups@.to_multiset(),
    ensures
        jarray(folder_items(e1.folders@)) == jarray(folder_items(e2.folders@)),
        jarray(session_items(e1)) == jarray(session_items(e2)),
        jarray(forwards_items(e1)) == jarray(forwards_items(e2)),
        jarray(group_items(e1)) == jarray(group_items(e2)),
{
    let ff = |f: Folder| jstr(folder_path_of(e1.folders@, f.id));
    assert(folder_items(e1.folders@) =~= Seq::new(e1.folders@.len(), |i: int| ff(e1.folders@[i])));
    assert(folder_items(e2.folders@) =~= Seq::new(e2.folders@.len(), |i: int| ff(e2.folders@[i])));
    lemma_map_jarray(e1.folders@, e2.folders@, ff, folder_items(e1.folders@), folder_items(e2.folders@));
    let fs = |s: SavedSession| session_item(e1, s);
    assert forall|s: SavedSession| #[trigger] session_item(e1, s) == session_item(e2, s) by {
        assert(fpath(e1, s.folder_id) == fpath(e2, s.folder_id));
    }
    assert(session_items(e1) =~= Seq::new(e1.sessions@.len(), |i: int| fs(e1.sessions@[i])));
    assert(session_items(e2) =~= Seq::new(e2.sessions@.len(), |i: int| fs(e2.sessions@[i])));
    lemma_map_jarray(e1.sessions@, e2.sessions@, fs, session_items(e1), session_items(e2));
    let fw = |sf: SessionForwards| forwards_item(e1, sf);
    assert forall|sf: SessionForwards| #[trigger] forwards_item(e1, sf) == forwards_item(e2, sf) by {
        assert(ident(e1, sf.session_id) == ident(e2, sf.session_id));
    }
    assert(Seq::new(e1.session_forwards@.len(), |i: int| forwards_item(e1, e1.session_forwards@[i])) =~= Seq::new(
        e1.session_forwards@.len(),
        |i: int| fw(e1.session_forwards@[i]),
    ));
    assert(Seq::new(e2.session_forwards@.len(), |i: int| forwards_item(e2, e2.session_forwards@[i])) =~= Seq::new(
        e2.session_forwards@.len(),
        |i: int| fw(e2.session_forwards@[i]),
    ));
    lemma_somes_jarray(e1.session_forwards@, e2.session_forwards@, fw, forwards_items(e1), forwards_items(e2));
    let fg = |g: BroadcastGroup| group_item(e1, g);
    assert forall|g: BroadcastGroup| #[trigger] group_item(e1, g) == group_item(e2, g) by {
        assert(Seq::new(g.session_ids@.len(), |k: int| member_item(e1, g.session_ids@[k])) =~= Seq::new(
            g.session_ids@.len(),
            |k: int| member_item(e2, g.session_ids@[k]),
        ));
    }
    assert(group_items(e1) =~= Seq::new(e1.broadcast_groups@.len(), |i: int| fg(e1.broadcast_groups@[i])));
    assert(group_items(e2) =~= Seq::new(e2.broadcast_groups@.len(), |i: int| fg(e2.broadcast_groups@[i])));
    lemma_map_jarray(e1.broadcast_groups@, e2.broadcast_groups@, fg, group_items(e1), group_items(e2));
}

proof fn lemma_other_parts(b1: Bundle, b2: Bundle)
    requires
        same_lookups(b1.environment, b2.environment),
        b1.environment.snippets@.to_multiset() == b2.environment.snippets@.to_multiset(),
        b1.environment.highlight_rules@.to_multiset() == b2.environment.highlight_rules@.to_multiset(),
        b1.settings@.to_multiset() == b2.settings@.to_multiset(),
        b1.vault_entries@.to_multiset() == b2.vault_entries@.to_multiset(),
        b1.session_credentials@.to_multiset() == b2.session_credentials@.to_multiset(),
    ensures
        jarray(snippet_items(b1.environment.snippets@)) == jarray(snippet_items(b2.environment.snippets@)),
        jarray(rule_items(b1.environment.highlight_rules@)) == jarray(rule_items(b2.environment.highlight_rules@)),
        jarray(setting_items(b1.settings@)) == jarray(setting_items(b2.settings@)),
        jarray(vault_items(b1.vault_entries@)) == jarray(vault_items(b2.vault_entries@)),
        jarray(cred_items(b1)) == jarray(cred_items(b2)),
{
    let e1 = b1.environment;
    let e2 = b2.environment;
    let fsn = |x: Snippet| snippet_item(x);
    assert(snippet_items(e1.snippets@) =~= Seq::new(e1.snippets@.len(), |i: int| fsn(e1.snippets@[i])));
    assert(snippet_items(e2.snippets@) =~= Seq::new(e2.snippets@.len(), |i: int| fsn(e2.snippets@[i])));
    lemma_map_jarray(e1.snippets@, e2.snippets@, fsn, snippet_items(e1.snippets@), snippet_items(e2.snippets@));
    let fr = |x: HighlightRule| rule_item(x);
    assert(rule_items(e1.highlight_rules@) =~= Seq::new(e1.highlight_rules@.len(), |i: int| fr(e1.highlight_rules@[i])));
    assert(rule_items(e2.highlight_rules@) =~= Seq::new(e2.highlight_rules@.len(), |i: int| fr(e2.highlight_rules@[i])));
    lemma_map_jarray(
        e1.highlight_rules@,
        e2.highlight_rules@,
        fr,
        rule_items(e1.highlight_rules@),
        rule_items(e2.highlight_rules@),
    );
    let fst = |kv: (String, String)| setting_item((kv.0@, kv.1@));
    assert(setting_items(b1.settings@) =~= Seq::new(b1.settings@.len(), |i: int| fst(b1.settings@[i])));
    assert(setting_items(b2.settings@) =~= Seq::new(b2.settings@.len(), |i: int| fst(b2.settings@[i])));
    lemma_map_jarray(b1.settings@, b2.settings@, fst, setting_items(b1.settings@), setting_items(b2.settings@));
    let fv = |x: BundleVaultEntry| vault_item(x);
    assert(vault_items(b1.vault_entries@) =~= Seq::new(b1.vault_entries@.len(), |i: int| fv(b1.vault_entries@[i])));
    assert(vault_items(b2.vault_entries@) =~= Seq::new(b2.vault_entries@.len(), |i: int| fv(b2.vault_entries@[i])));
    lemma_map_jarray(b1.vault_entries@, b2.vault_entries@, fv, vault_items(b1.vault_entries@), vault_items(b2.vault_entries@));
    let fc = |c: BundleSessionCredential| cred_item(e1, c);
    assert forall|c: BundleSessionCredential| #[trigger] cred_item(e1, c) == cred_item(e2, c) by {
        assert(ident(e1, c.session_id) == ident(e2, c.session_id));
    }
    assert(Seq::new(b1.session_credentials@.len(), |i: int| cred_item(e1, b1.session_credentials@[i])) =~= Seq::new(
        b1.session_credentials@.len(),
        |i: int| fc(b1.session_credentials@[i]),
    ));
    assert(Seq::new(b2.session_credentials@.len(), |i: int| cred_item(e2, b2.session_credentials@[i])) =~= Seq::new(
        b2.session_credentials@.len(),
        |i: int| fc(b2.session_credentials@[i]),
    ));
    lemma_somes_jarray(b1.session_credentials@, b2.session_credentials@, fc, cred_items(b1), cred_items(b2));
}

/// The fingerprint does not depend on the order of records, on time
/// stamps, versions or the device: two bundles whose record lists hold the
/// same records (in any order), whose sessions and folders resolve alike
/// (same identity for each session id, same path for each folder id) and
/// whose `known_hosts` hold the same key lines have the same canonical text,
/// whatever their `created_at`, `app_version`, `device`, `exported_at` or
/// version numbers.
pub proof fn lemma_canonical_order_free(b1: Bundle, b2: Bundle)
    requires
        b1.environment.folders@.to_multiset() == b2.environment.folders@.to_multiset(),
        b1.environment.sessions@.to_multiset() == b2.environment.sessions@.to_multiset(),
        b1.environment.session_forwards@.to_multiset() == b2.environment.session_forwards@.to_multiset(),
        b1.environment.broadcast_groups@.to_multiset() == b2.environment.broadcast_groups@.to_multiset(),
        b1.environment.snippets@.to_multiset() == b2.environment.snippets@.to_multiset(),
        b1.environment.highlight_rules@.to_multiset() == b2.environment.highlight_rules@.to_multiset(),
        b1.settings@.to_multiset() == b2.settings@.to_multiset(),
        b1.vault_entries@.to_multiset() == b2.vault_entries@.to_multiset(),
        b1.session_credentials@.to_multiset() == b2.session_credentials@.to_multiset(),
        same_lookups(b1.environment, b2.environment),
        b1.known_hosts is Some == b2.known_hosts is Some,
        b1.known_hosts is Some ==> key_lines(lines(b1.known_hosts.unwrap()@)).to_set() == key_lines(
            lines(b2.known_hosts.unwrap()@),
        ).to_set(),
    ensures
        canonical(b1) == canonical(b2),
{
    lemma_env_parts(b1.environment, b2.environment);
    lemma_other_parts(b1, b2);
    assert(host_items(b1.known_hosts) == host_items(b2.known_hosts));
}

/// A renaming of ids: different ids stay different.
pub open spec fn injective(f: spec_fn(i64) -> i64) -> bool {
    forall|a: i64, b: i64| #[trigger] f(a) == #[trigger] f(b) ==> a == b
}

/// An optional id, renamed.
pub open spec fn rename_opt(o: Option<i64>, f: spec_fn(i64) -> i64) -> Option<i64> {
    match o {
        Some(x) => Some(f(x)),
        None => None,
    }
}

/// `b2` is `b1` with its session ids renamed by `rs` and its folder ids by
/// `rf` (every reference renamed alike); the records' other fields that
/// the content is judged by are the same, in the same order.
pub open spec fn renamed(b1: Bundle, b2: Bundle, rs: spec_fn(i64) -> i64, rf: spec_fn(i64) -> i64) -> bool {
    let e1 = b1.environment;
    let e2 = b2.environment;
    &&& e2.folders@.len() == e1.folders@.len()
    &&& forall|i: int|
        0 <= i < e1.folders@.len() ==> {
            let (f1, f2) = (#[trigger] e1.folders@[i], e2.folders@[i]);
            f2.id == rf(f1.id) && f2.parent_id == rename_opt(f1.parent_id, rf) && f2.name@ == f1.name@
        }
    &&& e2.sessions@.len() == e1.sessions@.len()
    &&& forall|i: int|
        0 <= i < e1.sessions@.len() ==> {
            let (s1, s2) = (#[trigger] e1.sessions@[i], e2.sessions@[i]);
            &&& s2.id == rs(s1.id)
            &&& s2.folder_id == rename_opt(s1.folder_id, rf)
            &&& s2.via_session_id == rename_opt(s1.via_session_id, rs)
            &&& s2.name@ == s1.name@ && s2.protocol@ == s1.protocol@ && opt_str(s2.host) == opt_str(s1.host)
            &&& s2.port == s1.port && opt_str(s2.username) == opt_str(s1.username)
            &&& opt_str(s2.auth_method) == opt_str(s1.auth_method) && s2.options_json@ == s1.options_json@
            &&& opt_str(s2.login_script_json) == opt_str(s1.login_script_json)
        }
    &&& e2.session_forwards@.len() == e1.session_forwards@.len()
    &&& forall|i: int|
        0 <= i < e1.session_forwards@.len() ==> {
            let (a, b) = (#[trigger] e1.session_forwards@[i], e2.session_forwards@[i]);
            b.session_id == rs(a.session_id) && b.forwards == a.forwards
        }
    &&& e2.broadcast_groups@.len() == e1.broadcast_groups@.len()
    &&& forall|i: int|
        0 <= i < e1.broadcast_groups@.len() ==> {
            let (a, b) = (#[trigger] e1.broadcast_groups@[i], e2.broadcast_groups@[i]);
            b.name@ == a.name@ && b.session_ids@ == a.session_ids@.map_values(|x: i64| rs(x))
        }
    &&& e2.snippets == e1.snippets
    &&& e2.highlight_rules == e1.highlight_rules
    &&& b2.settings == b1.settings
    &&& b2.vault_entries == b1.vault_entries
    &&& b2.known_hosts == b1.known_hosts
    &&& b2.session_credentials@.len() == b1.session_credentials@.len()
    &&& forall|i: int|
        0 <= i < b1.session_credentials@.len() ==> {
            let (a, b) = (#[trigger] b1.session_credentials@[i], b2.session_credentials@[i]);
            &&& b.session_id == rs(a.session_id)
            &&& opt_str(b.vault_name) == opt_str(a.vault_name) && opt_str(b.kind) == opt_str(a.kind)
            &&& opt_str(b.secret) == opt_str(a.secret)
        }
}

proof fn lemma_find_session_renamed(
    s1: Seq<SavedSession>,
    s2: Seq<SavedSession>,
    rs: spec_fn(i64) -> i64,
    id: i64,
    from: int,
)
    requires
        injective(rs),
        s2.len() == s1.len(),
        forall|i: int| 0 <= i < s1.len() ==> (#[trigger] s2[i]).id == rs(s1[i].id),
    ensures
        find_session(s2, rs(id), from) == find_session(s1, id, from),
    decreases s1.len() - from,
{
    if 0 <= from < s1.len() {
        assert(s2[from].id == rs(s1[from].id));
        if s1[from].id != id {
            assert(rs(s1[from].id) != rs(id));
        }
        lemma_find_session_renamed(s1, s2, rs, id, from + 1);
    }
}

proof fn lemma_find_folder_renamed(f1: Seq<Folder>, f2: Seq<Folder>, rf: spec_fn(i64) -> i64, id: i64, from: int)
    requires
        injective(rf),
        f2.len() == f1.len(),
        forall|i: int| 0 <= i < f1.len() ==> (#[trigger] f2[i]).id == rf(f1[i].id),
    ensures
        crate::canon::find_folder(f2, rf(id), from) == crate::canon::find_folder(f1, id, from),
    decreases f1.len() - from,
{
    if 0 <= from < f1.len() {
        assert(f2[from].id == rf(f1[from].id));
        if f1[from].id != id {
            assert(rf(f1[from].id) != rf(id));
        }
        lemma_find_folder_renamed(f1, f2, rf, id, from + 1);
    }
}

proof fn lemma_walk_renamed(f1: Seq<Folder>, f2: Seq<Folder>, rf: spec_fn(i64) -> i64, cur: Option<i64>, g: nat)
    requires
        injective(rf),
        f2.len() == f1.len(),
        forall|i: int|
            0 <= i < f1.len() ==> (#[trigger] f2[i]).id == rf(f1[i].id) && f2[i].parent_id == rename_opt(f1[i].parent_id, rf)
                && f2[i].name@ == f1[i].name@,
    ensures
        crate::canon::walk_up(f2, rename_opt(cur, rf), g) == crate::canon::walk_up(f1, cur, g),
    decreases g,
{
    match cur {
        None => {},
        Some(x) => {
            if g > 0 {
                lemma_find_folder_renamed(f1, f2, rf, x, 0);
                lemma_find_folder_range_fp(f1, x, 0);
                match crate::canon::find_folder(f1, x, 0) {
                    None => {},
                    Some(j) => {
                        lemma_walk_renamed(f1, f2, rf, f1[j].parent_id, (g - 1) as nat);
                    },
                }
            }
        },
    }
}

proof fn lemma_find_folder_range_fp(fs: Seq<Folder>, id: i64, from: int)
    ensures
        crate::canon::find_folder(fs, id, from) matches Some(k) ==> 0 <= from <= k < fs.len(),
    decreases fs.len() - from,
{
    if 0 <= from < fs.len() && fs[from].id != id {
        lemma_find_folder_range_fp(fs, id, from + 1);
    }
}

proof fn lemma_find_session_range(ss: Seq<SavedSession>, id: i64, from: int)
    ensures
        find_session(ss, id, from) matches Some(k) ==> 0 <= from <= k < ss.len(),
    decreases ss.len() - from,
{
    if 0 <= from < ss.len() && ss[from].id != id {
        lemma_find_session_range(ss, id, from + 1);
    }
}

/// The fingerprint does not depend on row ids: renaming the session ids
/// and the folder ids of a bundle (each injectively, every reference
/// renamed alike) leaves its canonical text as it was.
pub proof fn lemma_canonical_id_free(b1: Bundle, b2: Bundle, rs: spec_fn(i64) -> i64, rf: spec_fn(i64) -> i64)
    requires
        injective(rs),
        injective(rf),
        renamed(b1, b2, rs, rf),
    ensures
        canonical(b1) == canonical(b2),
{
    let e1 = b1.environment;
    let e2 = b2.environment;
    assert forall|id: i64| #[trigger] ident(e2, rs(id)) == ident(e1, id) by {
        lemma_find_session_renamed(e1.sessions@, e2.sessions@, rs, id, 0);
        lemma_find_session_range(e1.sessions@, id, 0);
    }
    assert forall|f: i64| #[trigger] folder_path_of(e2.folders@, rf(f)) == folder_path_of(e1.folders@, f) by {
        lemma_walk_renamed(e1.folders@, e2.folders@, rf, Some(f), crate::canon::MAX_FOLDER_DEPTH as nat);
    }
    assert(folder_items(e2.folders@) =~= folder_items(e1.folders@));
    assert forall|i: int| 0 <= i < e1.sessions@.len() implies session_item(e2, e2.sessions@[i]) == session_item(
        e1,
        #[trigger] e1.sessions@[i],
    ) by {
        let s1 = e1.sessions@[i];
        let s2 = e2.sessions@[i];
        assert(ident(e2, s2.id) == ident(e1, s1.id));
        assert(fpath(e2, s2.folder_id) == fpath(e1, s1.folder_id));
        match s1.via_session_id {
            Some(v) => assert(ident(e2, rs(v)) == ident(e1, v)),
            None => {},
        }
    }
    assert(session_items(e2) =~= session_items(e1));
    assert(Seq::new(e2.session_forwards@.len(), |i: int| forwards_item(e2, e2.session_forwards@[i])) =~= Seq::new(
        e1.session_forwards@.len(),
        |i: int| forwards_item(e1, e1.session_forwards@[i]),
    )) by {
        assert forall|i: int| 0 <= i < e1.session_forwards@.len() implies forwards_item(e2, e2.session_forwards@[i])
            == forwards_item(e1, #[trigger] e1.session_forwards@[i]) by {
            assert(ident(e2, rs(e1.session_forwards@[i].session_id)) == ident(e1, e1.session_forwards@[i].session_id));
        }
    }
    assert forall|i: int| 0 <= i < e1.broadcast_groups@.len() implies group_item(e2, e2.broadcast_groups@[i]) == group_item(
        e1,
        #[trigger] e1.broadcast_groups@[i],
    ) by {
        let g1 = e1.broadcast_groups@[i];
        let g2 = e2.broadcast_groups@[i];
        assert(Seq::new(g2.session_ids@.len(), |k: int| member_item(e2, g2.session_ids@[k])) =~= Seq::new(
            g1.session_ids@.len(),
            |k: int| member_item(e1, g1.session_ids@[k]),
        )) by {
            assert forall|k: int| 0 <= k < g1.session_ids@.len() implies member_item(e2, g2.session_ids@[k]) == member_item(
                e1,
                #[trigger] g1.session_ids@[k],
            ) by {
                assert(g2.session_ids@[k] == rs(g1.session_ids@[k]));
                assert(ident(e2, rs(g1.session_ids@[k])) == ident(e1, g1.session_ids@[k]));
            }
        }
    }
    assert(group_items(e2) =~= group_items(e1));
    assert(Seq::new(b2.session_credentials@.len(), |i: int| cred_item(e2, b2.session_credentials@[i])) =~= Seq::new(
        b1.session_credentials@.len(),
        |i: int| cred_item(e1, b1.session_credentials@[i]),
    )) by {
        assert forall|i: int| 0 <= i < b1.session_credentials@.len() implies cred_item(e2, b2.session_credentials@[i])
            == cred_item(e1, #[trigger] b1.session_credentials@[i]) by {
            assert(ident(e2, rs(b1.session_credentials@[i].session_id)) == ident(e1, b1.session_credentials@[i].session_id));
        }
    }
}

} // verus!
