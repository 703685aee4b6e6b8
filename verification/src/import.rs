//! Applying an export file onto the database, skipping what already
//! exists. The database is the caller's: an [`ImportRun`] says, step by
//! step, what to write (create a folder, a session, set its forwards, …),
//! and the caller answers with the result of each write. Identities:
//! folders by `(name, parent)`, sessions by `(name, protocol, host, port)`,
//! groups by name, snippets by `(name, platform)`, highlight rules by
//! `(pattern, is_regex)`. File-local ids are remapped to the database's.
use vstd::prelude::*;
use crate::model::{
    opt_str, str_views, forward_views, AppError, BroadcastGroup, ExportFile, Folder, ForwardView,
    HighlightRule, ImportSummary, SavedForward, SavedSession, Snippet,
};
use crate::text::{owned, push_str};

verus! {

// ---------------------------------------------------------------------------
// Id maps
// ---------------------------------------------------------------------------

/// Index of key `k` in an id map.
pub open spec fn id_index(m: Seq<(i64, i64)>, k: i64, from: int) -> Option<int>
    decreases m.len() - from,
{
    if from < 0 || from >= m.len() {
        None
    } else if m[from].0 == k {
        Some(from)
    } else {
        id_index(m, k, from + 1)
    }
}

/// The id that old id `k` maps to.
pub open spec fn id_get(m: Seq<(i64, i64)>, k: i64) -> Option<i64> {
    match id_index(m, k, 0) {
        Some(i) => Some(m[i].1),
        None => None,
    }
}

/// Maps `k` to `v` (replacing an earlier mapping of `k`).
pub open spec fn id_put(m: Seq<(i64, i64)>, k: i64, v: i64) -> Seq<(i64, i64)> {
    match id_index(m, k, 0) {
        Some(i) => m.update(i, (k, v)),
        None => m.push((k, v)),
    }
}

fn id_find(m: &Vec<(i64, i64)>, k: i64) -> (r: Option<usize>)
    ensures
        match r {
            Some(i) => i < m@.len() && id_index(m@, k, 0) == Some(i as int),
            None => id_index(m@, k, 0) is None,
        },
{
    let mut i: usize = 0;
    while i < m.len()
        invariant
            i <= m@.len(),
            id_index(m@, k, 0) == id_index(m@, k, i as int),
        decreases m.len() - i,
    {
        if m[i].0 == k {
            return Some(i);
        }
        i = i + 1;
    }
    None
}

pub(crate) fn id_lookup(m: &Vec<(i64, i64)>, k: i64) -> (r: Option<i64>)
    ensures
        r == id_get(m@, k),
{
    match id_find(m, k) {
        Some(i) => Some(m[i].1),
        None => None,
    }
}

fn id_insert(m: &mut Vec<(i64, i64)>, k: i64, v: i64)
    ensures
        final(m)@ == id_put(old(m)@, k, v),
{
    match id_find(m, k) {
        Some(i) => {
            m.set(i, (k, v));
        },
        None => {
            m.push((k, v));
        },
    }
}

/// Whether `x` is among `v`.
fn contains_id(v: &Vec<i64>, x: i64) -> (b: bool)
    ensures
        b == v@.contains(x),
{
    let mut i: usize = 0;
    while i < v.len()
        invariant
            i <= v@.len(),
            forall|j: int| 0 <= j < i ==> v@[j] != x,
        decreases v.len() - i,
    {
        if v[i] == x {
            assert(v@[i as int] == x);
            return true;
        }
        i = i + 1;
    }
    false
}

/// `n` in decimal with a leading `-` when negative.
pub open spec fn signed_decimal(n: int) -> Seq<char> {
    if n < 0 {
        "-"@ + crate::importers::common::decimal((-n) as nat)
    } else {
        crate::importers::common::decimal(n as nat)
    }
}

pub(crate) fn i64_decimal(n: i64) -> (s: String)
    ensures
        s@ == signed_decimal(n as int),
{
    if n < 0 {
        let mag: u64 = if n == i64::MIN {
            0x8000_0000_0000_0000u64
        } else {
            (-n) as u64
        };
        let mut s = owned("-");
        let d = u64_decimal(mag);
        push_str(&mut s, d.as_str());
        s
    } else {
        u64_decimal(n as u64)
    }
}

fn u64_decimal(n: u64) -> (s: String)
    ensures
        s@ == crate::importers::common::decimal(n as nat),
    decreases n,
{
    if n < 10 {
        let mut s = String::new();
        crate::text::push_char(&mut s, crate::text::char_from_ascii(48 + n as u32));
        s
    } else {
        let mut s = u64_decimal(n / 10);
        crate::text::push_char(&mut s, crate::text::char_from_ascii(48 + (n % 10) as u32));
        s
    }
}

// ---------------------------------------------------------------------------
// Identities
// ---------------------------------------------------------------------------

/// Index of the first existing folder named `name` under `parent`.
pub open spec fn folder_match(ex: Seq<Folder>, name: Seq<char>, parent: Option<i64>, from: int) -> Option<int>
    decreases ex.len() - from,
{
    if from < 0 || from >= ex.len() {
        None
    } else if ex[from].name@ == name && ex[from].parent_id == parent {
        Some(from)
    } else {
        folder_match(ex, name, parent, from + 1)
    }
}

fn folder_match_exec(ex: &Vec<Folder>, name: &String, parent: Option<i64>) -> (r: Option<usize>)
    ensures
        match r {
            Some(i) => i < ex@.len() && folder_match(ex@, name@, parent, 0) == Some(i as int),
            None => folder_match(ex@, name@, parent, 0) is None,
        },
{
    let nc = crate::text::to_chars(name.as_str());
    let mut i: usize = 0;
    while i < ex.len()
        invariant
            i <= ex@.len(),
            nc@ == name@,
            folder_match(ex@, name@, parent, 0) == folder_match(ex@, name@, parent, i as int),
        decreases ex.len() - i,
    {
        if ex[i].parent_id == parent && crate::text::chars_eq(&crate::text::to_chars(ex[i].name.as_str()), &nc) {
            return Some(i);
        }
        i = i + 1;
    }
    None
}

/// Whether two sessions are the same: equal name, protocol, host and port.
pub open spec fn same_session(a: SavedSession, b: SavedSession) -> bool {
    a.name@ == b.name@ && a.protocol@ == b.protocol@ && opt_str(a.host) == opt_str(b.host) && a.port == b.port
}

/// Index of the first existing session identical to `s`.
pub open spec fn session_match(ex: Seq<SavedSession>, s: SavedSession, from: int) -> Option<int>
    decreases ex.len() - from,
{
    if from < 0 || from >= ex.len() {
        None
    } else if same_session(ex[from], s) {
        Some(from)
    } else {
        session_match(ex, s, from + 1)
    }
}

fn opt_str_eq(a: &Option<String>, b: &Option<String>) -> (r: bool)
    ensures
        r == (opt_str(*a) == opt_str(*b)),
{
    match (a, b) {
        (Some(x), Some(y)) => crate::text::str_is(x.as_str(), y.as_str()),
        (None, None) => true,
        _ => false,
    }
}

fn session_match_exec(ex: &Vec<SavedSession>, s: &SavedSession) -> (r: Option<usize>)
    ensures
        match r {
            Some(i) => i < ex@.len() && session_match(ex@, *s, 0) == Some(i as int),
            None => session_match(ex@, *s, 0) is None,
        },
{
    let mut i: usize = 0;
    while i < ex.len()
        invariant
            i <= ex@.len(),
            session_match(ex@, *s, 0) == session_match(ex@, *s, i as int),
        decreases ex.len() - i,
    {
        let e = &ex[i];
        if crate::text::str_is(e.name.as_str(), s.name.as_str()) && crate::text::str_is(
            e.protocol.as_str(),
            s.protocol.as_str(),
        ) && opt_str_eq(&e.host, &s.host) && e.port == s.port {
            return Some(i);
        }
        i = i + 1;
    }
    None
}

// ---------------------------------------------------------------------------
// Writes, answers and steps
// ---------------------------------------------------------------------------

/// A database write the import asks for.
#[derive(Debug)]
pub enum ImportAction {
    /// Create a folder; answered with its id (or a failure).
    CreateFolder { name: String, parent: Option<i64> },
    /// Create a session (no credential, no bastion yet); answered with its id.
    CreateSession {
        folder: Option<i64>,
        name: String,
        protocol: String,
        host: Option<String>,
        port: Option<u16>,
        username: Option<String>,
        options_json: String,
        auth_method: Option<String>,
    },
    /// Set a new session's login script.
    SetLoginScript { session: i64, script: String },
    /// Ask whether a key file exists on this machine; answered with `Exists`.
    CheckKeyFile { path: String },
    /// Set a new session's saved forwards.
    SetForwards { session: i64, forwards: Vec<SavedForward> },
    /// Set a new session's bastion.
    SetVia { session: i64, via: i64 },
    /// Create a broadcast group; answered with its id.
    CreateGroup { name: String },
    /// Set a new group's members.
    SetGroupMembers { group: i64, members: Vec<i64> },
    /// Create a snippet; answered with its id.
    CreateSnippet { name: String, content: String, platform: Option<String>, color: Option<String> },
    /// Create a highlight rule; answered with its id.
    CreateRule {
        name: String,
        pattern: String,
        is_regex: bool,
        fg_color: Option<String>,
        bg_color: Option<String>,
        bold: bool,
        underline: bool,
    },
}

/// The caller's answer to the last write.
#[derive(Debug, Clone)]
pub enum ImportAnswer {
    /// The id of what was created.
    Id(i64),
    /// The write succeeded.
    Done,
    /// Whether the asked-for key file exists.
    Exists(bool),
    /// The write failed with this message.
    Failed(String),
}

/// What the import asks next.
#[derive(Debug)]
pub enum ImportStep {
    /// Perform this write and answer.
    Act(ImportAction),
    /// Nothing to write: call again.
    Continue,
    /// The import ended.
    Finished(Result<ImportSummary, AppError>),
}

/// Abstract write.
pub enum ActionView {
    CreateFolder { name: Seq<char>, parent: Option<i64> },
    CreateSession {
        folder: Option<i64>,
        name: Seq<char>,
        protocol: Seq<char>,
        host: Option<Seq<char>>,
        port: Option<u16>,
        username: Option<Seq<char>>,
        options_json: Seq<char>,
        auth_method: Option<Seq<char>>,
    },
    SetLoginScript { session: i64, script: Seq<char> },
    CheckKeyFile { path: Seq<char> },
    SetForwards { session: i64, forwards: Seq<ForwardView> },
    SetVia { session: i64, via: i64 },
    CreateGroup { name: Seq<char> },
    SetGroupMembers { group: i64, members: Seq<i64> },
    CreateSnippet { name: Seq<char>, content: Seq<char>, platform: Option<Seq<char>>, color: Option<Seq<char>> },
    CreateRule {
        name: Seq<char>,
        pattern: Seq<char>,
        is_regex: bool,
        fg_color: Option<Seq<char>>,
        bg_color: Option<Seq<char>>,
        bold: bool,
        underline: bool,
    },
}

impl View for ImportAction {
    type V = ActionView;

    open spec fn view(&self) -> ActionView {
        match self {
            ImportAction::CreateFolder { name, parent } => ActionView::CreateFolder { name: name@, parent: *parent },
            ImportAction::CreateSession { folder, name, protocol, host, port, username, options_json, auth_method } =>
                ActionView::CreateSession {
                folder: *folder,
                name: name@,
                protocol: protocol@,
                host: opt_str(*host),
                port: *port,
                username: opt_str(*username),
                options_json: options_json@,
                auth_method: opt_str(*auth_method),
            },
            ImportAction::SetLoginScript { session, script } => ActionView::SetLoginScript {
                session: *session,
                script: script@,
            },
            ImportAction::CheckKeyFile { path } => ActionView::CheckKeyFile { path: path@ },
            ImportAction::SetForwards { session, forwards } => ActionView::SetForwards {
                session: *session,
                forwards: forward_views(forwards@),
            },
            ImportAction::SetVia { session, via } => ActionView::SetVia { session: *session, via: *via },
            ImportAction::CreateGroup { name } => ActionView::CreateGroup { name: name@ },
            ImportAction::SetGroupMembers { group, members } => ActionView::SetGroupMembers {
                group: *group,
                members: members@,
            },
            ImportAction::CreateSnippet { name, content, platform, color } => ActionView::CreateSnippet {
                name: name@,
                content: content@,
                platform: opt_str(*platform),
                color: opt_str(*color),
            },
            ImportAction::CreateRule { name, pattern, is_regex, fg_color, bg_color, bold, underline } =>
                ActionView::CreateRule {
                name: name@,
                pattern: pattern@,
                is_regex: *is_regex,
                fg_color: opt_str(*fg_color),
                bg_color: opt_str(*bg_color),
                bold: *bold,
                underline: *underline,
            },
        }
    }
}

/// Abstract answer.
pub enum AnswerView {
    Id(i64),
    Done,
    Exists(bool),
    Failed(Seq<char>),
}

impl View for ImportAnswer {
    type V = AnswerView;

    open spec fn view(&self) -> AnswerView {
        match self {
            ImportAnswer::Id(i) => AnswerView::Id(*i),
            ImportAnswer::Done => AnswerView::Done,
            ImportAnswer::Exists(b) => AnswerView::Exists(*b),
            ImportAnswer::Failed(m) => AnswerView::Failed(m@),
        }
    }
}

/// The view of an optional answer.
pub open spec fn answer_view(a: Option<ImportAnswer>) -> Option<AnswerView> {
    match a {
        Some(x) => Some(x@),
        None => None,
    }
}

/// The id an answer gives a create (none: the create failed).
pub open spec fn answered_id(a: Option<AnswerView>) -> Option<i64> {
    match a {
        Some(AnswerView::Id(i)) => Some(i),
        _ => None,
    }
}

/// The failure message of an answer (empty when it carries none).
pub open spec fn answered_msg(a: Option<AnswerView>) -> Seq<char> {
    match a {
        Some(AnswerView::Failed(m)) => m,
        _ => Seq::empty(),
    }
}

/// Whether an answer reports a failed write.
pub open spec fn answered_failure(a: Option<AnswerView>) -> bool {
    a matches Some(AnswerView::Failed(_))
}

/// The counters and warnings of an import.
pub struct SummaryView {
    pub sessions_added: int,
    pub sessions_skipped: int,
    pub folders_added: int,
    pub groups_added: int,
    pub snippets_added: int,
    pub rules_added: int,
    pub warnings: Seq<Seq<char>>,
}

impl View for ImportSummary {
    type V = SummaryView;

    open spec fn view(&self) -> SummaryView {
        SummaryView {
            sessions_added: self.sessions_added as int,
            sessions_skipped: self.sessions_skipped as int,
            folders_added: self.folders_added as int,
            groups_added: self.groups_added as int,
            snippets_added: self.snippets_added as int,
            rules_added: self.rules_added as int,
            warnings: str_views(self.warnings@),
        }
    }
}

/// Abstract step.
pub enum StepView {
    Act(ActionView),
    Continue,
    Finished(Result<SummaryView, Seq<char>>),
}

impl View for ImportStep {
    type V = StepView;

    open spec fn view(&self) -> StepView {
        match self {
            ImportStep::Act(a) => StepView::Act(a@),
            ImportStep::Continue => StepView::Continue,
            ImportStep::Finished(Ok(s)) => StepView::Finished(Ok(s@)),
            ImportStep::Finished(Err(AppError::Internal(m))) => StepView::Finished(Err(m@)),
        }
    }
}

// ---------------------------------------------------------------------------
// The writes after the sessions
// ---------------------------------------------------------------------------

/// A write planned once every session has its id.
#[derive(Debug)]
pub enum RestItem {
    /// The forwards of file entry `entry` onto new session `session`.
    Forwards { session: i64, entry: usize },
    /// Bastion `via` for new session `session`.
    Via { session: i64, via: i64 },
    /// Group `entry` of the file, with its resolved members.
    Group { entry: usize, members: Vec<i64> },
    /// Snippet `entry` of the file.
    Snippet { entry: usize },
    /// Highlight rule `entry` of the file.
    Rule { entry: usize },
}

/// Abstract planned write.
pub enum RestView {
    Forwards { session: i64, entry: int },
    Via { session: i64, via: i64 },
    Group { entry: int, members: Seq<i64> },
    Snippet { entry: int },
    Rule { entry: int },
}

impl View for RestItem {
    type V = RestView;

    open spec fn view(&self) -> RestView {
        match self {
            RestItem::Forwards { session, entry } => RestView::Forwards { session: *session, entry: *entry as int },
            RestItem::Via { session, via } => RestView::Via { session: *session, via: *via },
            RestItem::Group { entry, members } => RestView::Group { entry: *entry as int, members: members@ },
            RestItem::Snippet { entry } => RestView::Snippet { entry: *entry as int },
            RestItem::Rule { entry } => RestView::Rule { entry: *entry as int },
        }
    }
}

/// The views of planned writes.
pub open spec fn rest_views(v: Seq<RestItem>) -> Seq<RestView> {
    Seq::new(v.len(), |i: int| v[i]@)
}

/// Forwards are set only on sessions the import created.
pub open spec fn forward_items(fwds: Seq<crate::model::SessionForwards>, smap: Seq<(i64, i64)>, added: Seq<i64>, k: int) -> Seq<RestView>
    decreases fwds.len() - k,
{
    if k < 0 || k >= fwds.len() {
        Seq::empty()
    } else {
        let sid = fwds[k].session_id;
        (if added.contains(sid) && id_get(smap, sid) is Some {
            seq![RestView::Forwards { session: id_get(smap, sid).unwrap(), entry: k }]
        } else {
            Seq::empty()
        }) + forward_items(fwds, smap, added, k + 1)
    }
}

/// The warning of a bastion missing from the file.
pub open spec fn via_warning(session: i64) -> Seq<char> {
    "sesión id "@ + signed_decimal(session as int) + ": bastión (jump host) no incluido en el export — queda sin via"@
}

/// Bastions resolved through the session map, and warnings for the others.
pub open spec fn via_items(smap: Seq<(i64, i64)>, needs: Seq<(i64, i64)>, k: int) -> (Seq<RestView>, Seq<Seq<char>>)
    decreases needs.len() - k,
{
    if k < 0 || k >= needs.len() {
        (Seq::empty(), Seq::empty())
    } else {
        let rest = via_items(smap, needs, k + 1);
        match id_get(smap, needs[k].1) {
            Some(v) => (seq![RestView::Via { session: needs[k].0, via: v }] + rest.0, rest.1),
            None => (rest.0, seq![via_warning(needs[k].0)] + rest.1),
        }
    }
}

/// The members of a group that the session map resolves, in order.
pub open spec fn mapped_members(smap: Seq<(i64, i64)>, ids: Seq<i64>) -> Seq<i64>
    decreases ids.len(),
{
    if ids.len() == 0 {
        Seq::empty()
    } else {
        let rest = mapped_members(smap, ids.drop_last());
        match id_get(smap, ids.last()) {
            Some(v) => rest.push(v),
            None => rest,
        }
    }
}

proof fn lemma_mapped_members_len(smap: Seq<(i64, i64)>, ids: Seq<i64>)
    ensures
        mapped_members(smap, ids).len() <= ids.len(),
    decreases ids.len(),
{
    if ids.len() > 0 {
        lemma_mapped_members_len(smap, ids.drop_last());
    }
}

/// Whether a group of this name exists.
pub open spec fn group_exists(ex: Seq<BroadcastGroup>, name: Seq<char>) -> bool {
    exists|j: int| 0 <= j < ex.len() && (#[trigger] ex[j]).name@ == name
}

/// The warning of members left out of a group.
pub open spec fn members_warning(name: Seq<char>, missing: nat) -> Seq<char> {
    "grupo «"@ + name + "»: "@ + crate::importers::common::decimal(missing) + " miembro(s) no resueltos, omitidos"@
}

/// New groups with their resolved members, and warnings for unresolved ones.
pub open spec fn group_items(gs: Seq<BroadcastGroup>, ex: Seq<BroadcastGroup>, smap: Seq<(i64, i64)>, k: int) -> (Seq<RestView>, Seq<Seq<char>>)
    decreases gs.len() - k,
{
    if k < 0 || k >= gs.len() {
        (Seq::empty(), Seq::empty())
    } else {
        let rest = group_items(gs, ex, smap, k + 1);
        let g = gs[k];
        if group_exists(ex, g.name@) {
            rest
        } else {
            let members = mapped_members(smap, g.session_ids@);
            let w: Seq<Seq<char>> = if members.len() < g.session_ids@.len() {
                seq![members_warning(g.name@, (g.session_ids@.len() - members.len()) as nat)]
            } else {
                Seq::empty()
            };
            (seq![RestView::Group { entry: k, members }] + rest.0, w + rest.1)
        }
    }
}

/// Whether a snippet with this name and platform exists.
pub open spec fn snippet_exists(ex: Seq<Snippet>, s: Snippet) -> bool {
    exists|j: int| 0 <= j < ex.len() && (#[trigger] ex[j]).name@ == s.name@ && opt_str(ex[j].platform) == opt_str(s.platform)
}

/// The new snippets.
pub open spec fn snippet_items(sn: Seq<Snippet>, ex: Seq<Snippet>, k: int) -> Seq<RestView>
    decreases sn.len() - k,
{
    if k < 0 || k >= sn.len() {
        Seq::empty()
    } else {
        (if snippet_exists(ex, sn[k]) {
            Seq::empty()
        } else {
            seq![RestView::Snippet { entry: k }]
        }) + snippet_items(sn, ex, k + 1)
    }
}

/// Whether a rule with this pattern and kind exists.
pub open spec fn rule_exists(ex: Seq<HighlightRule>, r: HighlightRule) -> bool {
    exists|j: int| 0 <= j < ex.len() && (#[trigger] ex[j]).pattern@ == r.pattern@ && ex[j].is_regex == r.is_regex
}

/// The new highlight rules.
pub open spec fn rule_items(rs: Seq<HighlightRule>, ex: Seq<HighlightRule>, k: int) -> Seq<RestView>
    decreases rs.len() - k,
{
    if k < 0 || k >= rs.len() {
        Seq::empty()
    } else {
        (if rule_exists(ex, rs[k]) {
            Seq::empty()
        } else {
            seq![RestView::Rule { entry: k }]
        }) + rule_items(rs, ex, k + 1)
    }
}

/// Whether a planned write refers to entries of the file.
pub open spec fn item_ok(file: ExportFile, it: RestView) -> bool {
    match it {
        RestView::Forwards { session, entry } => 0 <= entry < file.session_forwards@.len(),
        RestView::Via { session, via } => true,
        RestView::Group { entry, members } => 0 <= entry < file.broadcast_groups@.len(),
        RestView::Snippet { entry } => 0 <= entry < file.snippets@.len(),
        RestView::Rule { entry } => 0 <= entry < file.highlight_rules@.len(),
    }
}

/// Records already in the database, read before the import.
pub struct Existing {
    pub folders: Vec<Folder>,
    pub sessions: Vec<SavedSession>,
    pub groups: Vec<BroadcastGroup>,
    pub snippets: Vec<Snippet>,
    pub rules: Vec<HighlightRule>,
}

/// The writes after the sessions (forwards, bastions, groups, snippets,
/// rules, in that order) and the warnings they raise (bastions, groups).
pub open spec fn rest_plan(file: ExportFile, ex: Existing, smap: Seq<(i64, i64)>, added: Seq<i64>, needs: Seq<(i64, i64)>) -> (
    Seq<RestView>,
    Seq<Seq<char>>,
) {
    let v = via_items(smap, needs, 0);
    let g = group_items(file.broadcast_groups@, ex.groups@, smap, 0);
    (
        forward_items(file.session_forwards@, smap, added, 0) + v.0 + g.0 + snippet_items(file.snippets@, ex.snippets@, 0)
            + rule_items(file.highlight_rules@, ex.rules@, 0),
        v.1 + g.1,
    )
}

fn push_item(items: &mut Vec<RestItem>, it: RestItem)
    ensures
        rest_views(final(items)@) == rest_views(old(items)@).push(it@),
        final(items)@ == old(items)@.push(it),
{
    items.push(it);
    assert(rest_views(items@) =~= rest_views(old(items)@).push(it@));
}

fn members_exec(smap: &Vec<(i64, i64)>, ids: &Vec<i64>) -> (r: Vec<i64>)
    ensures
        r@ == mapped_members(smap@, ids@),
{
    let mut out: Vec<i64> = Vec::new();
    let mut k: usize = 0;
    while k < ids.len()
        invariant
            k <= ids@.len(),
            out@ == mapped_members(smap@, ids@.take(k as int)),
        decreases ids.len() - k,
    {
        assert(ids@.take(k + 1).drop_last() =~= ids@.take(k as int));
        assert(ids@.take(k + 1).last() == ids@[k as int]);
        match id_lookup(smap, ids[k]) {
            Some(v) => out.push(v),
            None => {},
        }
        k = k + 1;
    }
    assert(ids@.take(k as int) =~= ids@);
    out
}

/// Plans the writes after the sessions (see `rest_plan`).
fn plan_rest(
    file: &ExportFile,
    ex: &Existing,
    smap: &Vec<(i64, i64)>,
    added: &Vec<i64>,
    needs: &Vec<(i64, i64)>,
    warnings: &mut Vec<String>,
) -> (r: Vec<RestItem>)
    ensures
        rest_views(r@) == rest_plan(*file, *ex, smap@, added@, needs@).0,
        str_views(final(warnings)@) == str_views(old(warnings)@) + rest_plan(*file, *ex, smap@, added@, needs@).1,
        forall|j: int| 0 <= j < r@.len() ==> item_ok(*file, #[trigger] r@[j]@),
{
    let ghost w0 = str_views(warnings@);
    let mut items: Vec<RestItem> = Vec::new();
    assert(rest_views(items@) =~= Seq::<RestView>::empty());
    // Forwards.
    let ghost fw = file.session_forwards@;
    let mut k: usize = 0;
    while k < file.session_forwards.len()
        invariant
            k <= fw.len(),
            fw == file.session_forwards@,
            forward_items(fw, smap@, added@, 0) == rest_views(items@) + forward_items(fw, smap@, added@, k as int),
            forall|j: int| 0 <= j < items@.len() ==> item_ok(*file, #[trigger] items@[j]@),
        decreases file.session_forwards.len() - k,
    {
        let sid = file.session_forwards[k].session_id;
        let ghost before = rest_views(items@);
        let ghost tail = forward_items(fw, smap@, added@, k + 1);
        if contains_id(added, sid) {
            match id_lookup(smap, sid) {
                Some(n) => {
                    push_item(&mut items, RestItem::Forwards { session: n, entry: k });
                    assert(before + (seq![RestView::Forwards { session: n, entry: k as int }] + tail) =~= rest_views(items@) + tail);
                },
                None => {
                    assert(before + (Seq::<RestView>::empty() + tail) =~= before + tail);
                },
            }
        } else {
            assert(before + (Seq::<RestView>::empty() + tail) =~= before + tail);
        }
        k = k + 1;
    }
    let ghost after_fw = rest_views(items@);
    assert(forward_items(fw, smap@, added@, k as int) == Seq::<RestView>::empty());
    assert(after_fw =~= forward_items(fw, smap@, added@, 0));
    // Bastions.
    let mut k: usize = 0;
    assert(after_fw + Seq::<RestView>::empty() =~= after_fw);
    assert(w0 + Seq::<Seq<char>>::empty() =~= w0);
    while k < needs.len()
        invariant
            k <= needs@.len(),
            rest_views(items@) + via_items(smap@, needs@, k as int).0 == after_fw + via_items(smap@, needs@, 0).0,
            str_views(warnings@) + via_items(smap@, needs@, k as int).1 == w0 + via_items(smap@, needs@, 0).1,
            forall|j: int| 0 <= j < items@.len() ==> item_ok(*file, #[trigger] items@[j]@),
        decreases needs.len() - k,
    {
        let (sess, old_via) = needs[k];
        let ghost before = rest_views(items@);
        let ghost wb = str_views(warnings@);
        let ghost rest = via_items(smap@, needs@, k + 1);
        match id_lookup(smap, old_via) {
            Some(v) => {
                push_item(&mut items, RestItem::Via { session: sess, via: v });
                assert(before + (seq![RestView::Via { session: sess, via: v }] + rest.0) =~= rest_views(items@) + rest.0);
            },
            None => {
                let mut m = owned("sesión id ");
                let d = i64_decimal(sess);
                push_str(&mut m, d.as_str());
                push_str(&mut m, ": bastión (jump host) no incluido en el export — queda sin via");
                warnings.push(m);
                assert(str_views(warnings@) =~= wb.push(via_warning(sess)));
                assert(wb + (seq![via_warning(sess)] + rest.1) =~= str_views(warnings@) + rest.1);
            },
        }
        k = k + 1;
    }
    let ghost after_via = rest_views(items@);
    let ghost w1 = str_views(warnings@);
    assert(after_via =~= after_fw + via_items(smap@, needs@, 0).0);
    assert(w1 =~= w0 + via_items(smap@, needs@, 0).1);
    // Groups.
    let ghost gs = file.broadcast_groups@;
    let mut k: usize = 0;
    assert(after_via + Seq::<RestView>::empty() =~= after_via);
    assert(w1 + Seq::<Seq<char>>::empty() =~= w1);
    while k < file.broadcast_groups.len()
        invariant
            k <= gs.len(),
            gs == file.broadcast_groups@,
            rest_views(items@) + group_items(gs, ex.groups@, smap@, k as int).0 == after_via + group_items(gs, ex.groups@, smap@, 0).0,
            str_views(warnings@) + group_items(gs, ex.groups@, smap@, k as int).1 == w1 + group_items(gs, ex.groups@, smap@, 0).1,
            forall|j: int| 0 <= j < items@.len() ==> item_ok(*file, #[trigger] items@[j]@),
        decreases file.broadcast_groups.len() - k,
    {
        let g = &file.broadcast_groups[k];
        let ghost before = rest_views(items@);
        let ghost wb = str_views(warnings@);
        let ghost rest = group_items(gs, ex.groups@, smap@, k + 1);
        let gc = crate::text::to_chars(g.name.as_str());
        let mut exists = false;
        let mut j: usize = 0;
        while j < ex.groups.len()
            invariant
                j <= ex.groups@.len(),
                gc@ == g.name@,
                exists == (exists|q: int| 0 <= q < j && (#[trigger] ex.groups@[q]).name@ == g.name@),
            decreases ex.groups.len() - j,
        {
            if crate::text::chars_eq(&crate::text::to_chars(ex.groups[j].name.as_str()), &gc) {
                exists = true;
            }
            j = j + 1;
        }
        if !exists {
            let members = members_exec(smap, &g.session_ids);
            proof {
                lemma_mapped_members_len(smap@, g.session_ids@);
            }
            if members.len() < g.session_ids.len() {
                let mut m = owned("grupo «");
                push_str(&mut m, g.name.as_str());
                push_str(&mut m, "»: ");
                let d = crate::importers::common::usize_decimal(g.session_ids.len() - members.len());
                push_str(&mut m, d.as_str());
                push_str(&mut m, " miembro(s) no resueltos, omitidos");
                warnings.push(m);
                assert(str_views(warnings@) =~= wb + seq![m@]);
            } else {
                assert(str_views(warnings@) =~= wb + Seq::<Seq<char>>::empty());
            }
            let ghost mv = members@;
            push_item(&mut items, RestItem::Group { entry: k, members });
            assert(before + (seq![RestView::Group { entry: k as int, members: mv }] + rest.0) =~= rest_views(items@) + rest.0);
        }
        k = k + 1;
    }
    let ghost after_groups = rest_views(items@);
    assert(after_groups =~= after_via + group_items(gs, ex.groups@, smap@, 0).0);
    assert(str_views(warnings@) =~= w1 + group_items(gs, ex.groups@, smap@, 0).1);
    // Snippets.
    let ghost sn = file.snippets@;
    let mut k: usize = 0;
    assert(after_groups + Seq::<RestView>::empty() =~= after_groups);
    while k < file.snippets.len()
        invariant
            k <= sn.len(),
            sn == file.snippets@,
            rest_views(items@) + snippet_items(sn, ex.snippets@, k as int) == after_groups + snippet_items(sn, ex.snippets@, 0),
            forall|j: int| 0 <= j < items@.len() ==> item_ok(*file, #[trigger] items@[j]@),
        decreases file.snippets.len() - k,
    {
        let sp = &file.snippets[k];
        let ghost before = rest_views(items@);
        let ghost rest = snippet_items(sn, ex.snippets@, k + 1);
        let nc = crate::text::to_chars(sp.name.as_str());
        let mut exists = false;
        let mut j: usize = 0;
        while j < ex.snippets.len()
            invariant
                j <= ex.snippets@.len(),
                nc@ == sp.name@,
                exists == (exists|q: int|
                    0 <= q < j && (#[trigger] ex.snippets@[q]).name@ == sp.name@ && opt_str(ex.snippets@[q].platform)
                        == opt_str(sp.platform)),
            decreases ex.snippets.len() - j,
        {
            if crate::text::chars_eq(&crate::text::to_chars(ex.snippets[j].name.as_str()), &nc) && opt_str_eq(
                &ex.snippets[j].platform,
                &sp.platform,
            ) {
                exists = true;
            }
            j = j + 1;
        }
        if !exists {
            push_item(&mut items, RestItem::Snippet { entry: k });
            assert(before + (seq![RestView::Snippet { entry: k as int }] + rest) =~= rest_views(items@) + rest);
        } else {
            assert(before + (Seq::<RestView>::empty() + rest) =~= before + rest);
        }
        k = k + 1;
    }
    let ghost after_snippets = rest_views(items@);
    assert(after_snippets =~= after_groups + snippet_items(sn, ex.snippets@, 0));
    // Rules.
    let ghost rs = file.highlight_rules@;
    let mut k: usize = 0;
    assert(after_snippets + Seq::<RestView>::empty() =~= after_snippets);
    while k < file.highlight_rules.len()
        invariant
            k <= rs.len(),
            rs == file.highlight_rules@,
            rest_views(items@) + rule_items(rs, ex.rules@, k as int) == after_snippets + rule_items(rs, ex.rules@, 0),
            forall|j: int| 0 <= j < items@.len() ==> item_ok(*file, #[trigger] items@[j]@),
        decreases file.highlight_rules.len() - k,
    {
        let r = &file.highlight_rules[k];
        let ghost before = rest_views(items@);
        let ghost rest = rule_items(rs, ex.rules@, k + 1);
        let pc = crate::text::to_chars(r.pattern.as_str());
        let mut exists = false;
        let mut j: usize = 0;
        while j < ex.rules.len()
            invariant
                j <= ex.rules@.len(),
                pc@ == r.pattern@,
                exists == (exists|q: int|
                    0 <= q < j && (#[trigger] ex.rules@[q]).pattern@ == r.pattern@ && ex.rules@[q].is_regex == r.is_regex),
            decreases ex.rules.len() - j,
        {
            if ex.rules[j].is_regex == r.is_regex && crate::text::chars_eq(
                &crate::text::to_chars(ex.rules[j].pattern.as_str()),
                &pc,
            ) {
                exists = true;
            }
            j = j + 1;
        }
        if !exists {
            push_item(&mut items, RestItem::Rule { entry: k });
            assert(before + (seq![RestView::Rule { entry: k as int }] + rest) =~= rest_views(items@) + rest);
        } else {
            assert(before + (Seq::<RestView>::empty() + rest) =~= before + rest);
        }
        k = k + 1;
    }
    assert(rest_views(items@) =~= after_snippets + rule_items(rs, ex.rules@, 0));
    items
}

// ---------------------------------------------------------------------------
// The run
// ---------------------------------------------------------------------------

/// Where a run stands.
#[derive(Debug, Clone, Copy, PartialEq, Eq, Structural)]
pub enum Phase {
    Start,
    /// Folders whose parent is known, round after round.
    Folders,
    /// Folders whose parent is not in the file, created at the root.
    Orphans,
    Sessions,
    /// Forwards, bastions, groups, snippets and rules.
    Rest,
    Finished,
}

/// The state of a run.
pub struct RunModel {
    pub phase: Phase,
    /// Folder entries of this round (or the orphans), and the position.
    pub pending: Seq<usize>,
    pub pos: int,
    /// Folder entries left for the next round.
    pub kept: Seq<usize>,
    /// Whether the last step asked for a write whose answer is due.
    pub awaiting: bool,
    pub folder_map: Seq<(i64, i64)>,
    pub sess: int,
    /// Sessions: 0 deciding, 1 created, 2 script set, 3 key file checked.
    /// Rest: 0 next write, 1 answered, 2 group members set.
    pub stage: int,
    pub new_id: i64,
    pub session_map: Seq<(i64, i64)>,
    pub added: Seq<i64>,
    pub needs_via: Seq<(i64, i64)>,
    pub rest: Seq<RestView>,
    pub rest_pos: int,
    pub group_id: i64,
    pub summary: SummaryView,
}

/// The message refusing a file of a newer version.
pub open spec fn newer_file_message(v: u32) -> Seq<char> {
    "el fichero es de una versión de ZAPX más nueva (export v"@ + crate::importers::common::decimal(v as nat)
        + ", soportado v1)"@
}

/// The first step: refuse newer files, else start on the folders.
pub open spec fn start_step(file: ExportFile, m: RunModel) -> (RunModel, StepView) {
    if file.zapx_export > 1 {
        (RunModel { phase: Phase::Finished, ..m }, StepView::Finished(Err(newer_file_message(file.zapx_export))))
    } else {
        (
            RunModel {
                phase: Phase::Folders,
                pending: Seq::new(file.folders@.len(), |i: int| i as usize),
                pos: 0,
                kept: Seq::empty(),
                awaiting: false,
                ..m
            },
            StepView::Continue,
        )
    }
}

/// The warning of a folder that could not be created.
pub open spec fn folder_warning(name: Seq<char>, msg: Seq<char>) -> Seq<char> {
    "carpeta «"@ + name + "»: "@ + msg
}

/// The warning of a folder whose parent is not in the file.
pub open spec fn orphan_warning(name: Seq<char>) -> Seq<char> {
    "carpeta «"@ + name + "»: padre no incluido en el export — movida a la raíz"@
}

/// One step of the folder rounds. An entry whose parent is not mapped yet
/// waits for the next round; a round that maps nothing leaves the rest as
/// orphans. A mapped entry reuses an existing folder of the same name and
/// parent, or is created (a failed create is a warning).
pub open spec fn folder_step(file: ExportFile, ex: Existing, m: RunModel, a: Option<AnswerView>) -> (RunModel, StepView) {
    if m.awaiting {
        let f = file.folders@[m.pending[m.pos] as int];
        let m2 = match answered_id(a) {
            Some(id) => RunModel {
                folder_map: id_put(m.folder_map, f.id, id),
                summary: SummaryView { folders_added: m.summary.folders_added + 1, ..m.summary },
                ..m
            },
            None => RunModel {
                summary: SummaryView {
                    warnings: m.summary.warnings.push(folder_warning(f.name@, answered_msg(a))),
                    ..m.summary
                },
                ..m
            },
        };
        (RunModel { pos: m.pos + 1, awaiting: false, ..m2 }, StepView::Continue)
    } else if m.pos >= m.pending.len() {
        if m.kept.len() == m.pending.len() {
            (RunModel { phase: Phase::Orphans, pending: m.kept, pos: 0, kept: Seq::empty(), ..m }, StepView::Continue)
        } else {
            (RunModel { pending: m.kept, pos: 0, kept: Seq::empty(), ..m }, StepView::Continue)
        }
    } else {
        let i = m.pending[m.pos];
        let f = file.folders@[i as int];
        let parent: Option<Option<i64>> = match f.parent_id {
            None => Some(None),
            Some(p) => match id_get(m.folder_map, p) {
                Some(n) => Some(Some(n)),
                None => None,
            },
        };
        match parent {
            None => (RunModel { kept: m.kept.push(i), pos: m.pos + 1, ..m }, StepView::Continue),
            Some(pn) => match folder_match(ex.folders@, f.name@, pn, 0) {
                Some(j) => (
                    RunModel { folder_map: id_put(m.folder_map, f.id, ex.folders@[j].id), pos: m.pos + 1, ..m },
                    StepView::Continue,
                ),
                None => (
                    RunModel { awaiting: true, ..m },
                    StepView::Act(ActionView::CreateFolder { name: f.name@, parent: pn }),
                ),
            },
        }
    }
}

/// One step of the orphans: each lands at the root with a warning, reusing
/// an existing root folder of the same name (so a second import adds
/// nothing) and created otherwise.
pub open spec fn orphan_step(file: ExportFile, ex: Existing, m: RunModel, a: Option<AnswerView>) -> (RunModel, StepView) {
    if m.awaiting {
        let f = file.folders@[m.pending[m.pos] as int];
        let m2 = match answered_id(a) {
            Some(id) => RunModel {
                folder_map: id_put(m.folder_map, f.id, id),
                summary: SummaryView { folders_added: m.summary.folders_added + 1, ..m.summary },
                ..m
            },
            None => m,
        };
        (RunModel { pos: m.pos + 1, awaiting: false, ..m2 }, StepView::Continue)
    } else if m.pos >= m.pending.len() {
        (RunModel { phase: Phase::Sessions, sess: 0, stage: 0, ..m }, StepView::Continue)
    } else {
        let f = file.folders@[m.pending[m.pos] as int];
        let warned = SummaryView { warnings: m.summary.warnings.push(orphan_warning(f.name@)), ..m.summary };
        match folder_match(ex.folders@, f.name@, None, 0) {
            Some(j) => (
                RunModel {
                    folder_map: id_put(m.folder_map, f.id, ex.folders@[j].id),
                    pos: m.pos + 1,
                    summary: warned,
                    ..m
                },
                StepView::Continue,
            ),
            None => (
                RunModel { awaiting: true, summary: warned, ..m },
                StepView::Act(ActionView::CreateFolder { name: f.name@, parent: None }),
            ),
        }
    }
}

/// The key file of a key-auth session, when its options name one.
pub open spec fn key_path_of(s: SavedSession) -> Option<Seq<char>> {
    if opt_str(s.auth_method) == Some("key"@) {
        crate::connect::json_str_field(s.options_json@, "key_path"@)
    } else {
        None
    }
}

/// The warning of a key file missing on this machine.
pub open spec fn key_warning(name: Seq<char>, path: Seq<char>) -> Seq<char> {
    "sesión «"@ + name + "»: la clave "@ + path + " no existe en esta máquina"@
}

/// A created session is mapped, counted and done.
pub open spec fn session_done(file: ExportFile, m: RunModel) -> RunModel {
    let s = file.sessions@[m.sess];
    RunModel {
        session_map: id_put(m.session_map, s.id, m.new_id),
        added: m.added.push(s.id),
        summary: SummaryView { sessions_added: m.summary.sessions_added + 1, ..m.summary },
        sess: m.sess + 1,
        stage: 0,
        ..m
    }
}

/// After a created session's script: note its bastion for later, then
/// check its key file, if any.
pub open spec fn after_script(file: ExportFile, m: RunModel) -> (RunModel, StepView) {
    let s = file.sessions@[m.sess];
    let m1 = match s.via_session_id {
        Some(v) => RunModel { needs_via: m.needs_via.push((m.new_id, v)), ..m },
        None => m,
    };
    match key_path_of(s) {
        Some(p) => (RunModel { stage: 3, ..m1 }, StepView::Act(ActionView::CheckKeyFile { path: p })),
        None => (session_done(file, m1), StepView::Continue),
    }
}

/// The empty summary.
pub open spec fn no_summary() -> SummaryView {
    SummaryView {
        sessions_added: 0,
        sessions_skipped: 0,
        folders_added: 0,
        groups_added: 0,
        snippets_added: 0,
        rules_added: 0,
        warnings: Seq::empty(),
    }
}

/// The run ends with an error.
pub open spec fn failed(m: RunModel, msg: Seq<char>) -> (RunModel, StepView) {
    (RunModel { phase: Phase::Finished, summary: no_summary(), ..m }, StepView::Finished(Err(msg)))
}

/// One step of the sessions. A session identical to an existing one is
/// mapped to it and skipped; another is created in its remapped folder
/// (a failed create ends the import), gets its login script, and has its
/// key file checked.
pub open spec fn session_step(file: ExportFile, ex: Existing, m: RunModel, a: Option<AnswerView>) -> (RunModel, StepView) {
    if m.stage == 0 {
        if m.sess >= file.sessions@.len() {
            let (items, ws) = rest_plan(file, ex, m.session_map, m.added, m.needs_via);
            (
                RunModel {
                    phase: Phase::Rest,
                    rest: items,
                    rest_pos: 0,
                    stage: 0,
                    summary: SummaryView { warnings: m.summary.warnings + ws, ..m.summary },
                    ..m
                },
                StepView::Continue,
            )
        } else {
            let s = file.sessions@[m.sess];
            match session_match(ex.sessions@, s, 0) {
                Some(j) => (
                    RunModel {
                        session_map: id_put(m.session_map, s.id, ex.sessions@[j].id),
                        summary: SummaryView { sessions_skipped: m.summary.sessions_skipped + 1, ..m.summary },
                        sess: m.sess + 1,
                        ..m
                    },
                    StepView::Continue,
                ),
                None => (
                    RunModel { stage: 1, ..m },
                    StepView::Act(
                        ActionView::CreateSession {
                            folder: match s.folder_id {
                                Some(f) => id_get(m.folder_map, f),
                                None => None,
                            },
                            name: s.name@,
                            protocol: s.protocol@,
                            host: opt_str(s.host),
                            port: s.port,
                            username: opt_str(s.username),
                            options_json: s.options_json@,
                            auth_method: opt_str(s.auth_method),
                        },
                    ),
                ),
            }
        }
    } else if m.stage == 1 {
        let s = file.sessions@[m.sess];
        match answered_id(a) {
            Some(id) => match s.login_script_json {
                Some(sc) => (
                    RunModel { stage: 2, new_id: id, ..m },
                    StepView::Act(ActionView::SetLoginScript { session: id, script: sc@ }),
                ),
                None => after_script(file, RunModel { new_id: id, ..m }),
            },
            None => failed(m, answered_msg(a)),
        }
    } else if m.stage == 2 {
        if answered_failure(a) {
            failed(m, answered_msg(a))
        } else {
            after_script(file, m)
        }
    } else {
        let s = file.sessions@[m.sess];
        let m1 = if a == Some(AnswerView::Exists(false)) {
            RunModel {
                summary: SummaryView {
                    warnings: m.summary.warnings.push(key_warning(s.name@, key_path_of(s).unwrap())),
                    ..m.summary
                },
                ..m
            }
        } else {
            m
        };
        (session_done(file, m1), StepView::Continue)
    }
}

/// The write of a planned item.
pub open spec fn rest_action(file: ExportFile, it: RestView) -> ActionView {
    match it {
        RestView::Forwards { session, entry } => ActionView::SetForwards {
            session,
            forwards: forward_views(file.session_forwards@[entry].forwards@),
        },
        RestView::Via { session, via } => ActionView::SetVia { session, via },
        RestView::Group { entry, members } => ActionView::CreateGroup { name: file.broadcast_groups@[entry].name@ },
        RestView::Snippet { entry } => {
            let sn = file.snippets@[entry];
            ActionView::CreateSnippet {
                name: sn.name@,
                content: sn.content@,
                platform: opt_str(sn.platform),
                color: opt_str(sn.color),
            }
        },
        RestView::Rule { entry } => {
            let r = file.highlight_rules@[entry];
            ActionView::CreateRule {
                name: r.name@,
                pattern: r.pattern@,
                is_regex: r.is_regex,
                fg_color: opt_str(r.fg_color),
                bg_color: opt_str(r.bg_color),
                bold: r.bold,
                underline: r.underline,
            }
        },
    }
}

/// One step of the planned writes; any failed write ends the import.
pub open spec fn rest_step(file: ExportFile, m: RunModel, a: Option<AnswerView>) -> (RunModel, StepView) {
    if m.stage == 0 {
        if m.rest_pos >= m.rest.len() {
            (RunModel { phase: Phase::Finished, summary: no_summary(), ..m }, StepView::Finished(Ok(m.summary)))
        } else {
            (RunModel { stage: 1, ..m }, StepView::Act(rest_action(file, m.rest[m.rest_pos])))
        }
    } else if m.stage == 1 {
        let next = RunModel { rest_pos: m.rest_pos + 1, stage: 0, ..m };
        match m.rest[m.rest_pos] {
            RestView::Group { entry, members } => match answered_id(a) {
                Some(g) => (
                    RunModel { stage: 2, group_id: g, ..m },
                    StepView::Act(ActionView::SetGroupMembers { group: g, members }),
                ),
                None => failed(m, answered_msg(a)),
            },
            RestView::Snippet { entry } => match answered_id(a) {
                Some(_) => (
                    RunModel { summary: SummaryView { snippets_added: m.summary.snippets_added + 1, ..m.summary }, ..next },
                    StepView::Continue,
                ),
                None => failed(m, answered_msg(a)),
            },
            RestView::Rule { entry } => match answered_id(a) {
                Some(_) => (
                    RunModel { summary: SummaryView { rules_added: m.summary.rules_added + 1, ..m.summary }, ..next },
                    StepView::Continue,
                ),
                None => failed(m, answered_msg(a)),
            },
            _ => if answered_failure(a) {
                failed(m, answered_msg(a))
            } else {
                (next, StepView::Continue)
            },
        }
    } else {
        if answered_failure(a) {
            failed(m, answered_msg(a))
        } else {
            (
                RunModel {
                    rest_pos: m.rest_pos + 1,
                    stage: 0,
                    summary: SummaryView { groups_added: m.summary.groups_added + 1, ..m.summary },
                    ..m
                },
                StepView::Continue,
            )
        }
    }
}

/// One step of a run, given the answer to the previous write.
pub open spec fn run_step(file: ExportFile, ex: Existing, m: RunModel, a: Option<AnswerView>) -> (RunModel, StepView) {
    match m.phase {
        Phase::Start => start_step(file, m),
        Phase::Folders => folder_step(file, ex, m, a),
        Phase::Orphans => orphan_step(file, ex, m, a),
        Phase::Sessions => session_step(file, ex, m, a),
        Phase::Rest => rest_step(file, m, a),
        Phase::Finished => (m, StepView::Continue),
    }
}

/// An import in progress.
pub struct ImportRun {
    file: ExportFile,
    ex: Existing,
    phase: Phase,
    pending: Vec<usize>,
    pos: usize,
    kept: Vec<usize>,
    awaiting: bool,
    folder_map: Vec<(i64, i64)>,
    sess: usize,
    stage: u8,
    new_id: i64,
    session_map: Vec<(i64, i64)>,
    added: Vec<i64>,
    needs_via: Vec<(i64, i64)>,
    rest: Vec<RestItem>,
    rest_pos: usize,
    group_id: i64,
    summary: ImportSummary,
}

fn empty_summary() -> (r: ImportSummary)
    ensures
        r@ == no_summary(),
{
    let r = ImportSummary {
        sessions_added: 0,
        sessions_skipped: 0,
        folders_added: 0,
        groups_added: 0,
        snippets_added: 0,
        rules_added: 0,
        warnings: Vec::new(),
    };
    assert(str_views(r.warnings@) =~= Seq::<Seq<char>>::empty());
    r
}

fn push_warning(s: &mut ImportSummary, w: String)
    ensures
        final(s)@ == (SummaryView { warnings: old(s)@.warnings.push(w@), ..old(s)@ }),
{
    s.warnings.push(w);
    assert(str_views(s.warnings@) =~= str_views(old(s).warnings@).push(w@));
}

fn clone_opt(o: &Option<String>) -> (r: Option<String>)
    ensures
        opt_str(r) == opt_str(*o),
{
    match o {
        Some(s) => Some(s.clone()),
        None => None,
    }
}

fn clone_forwards(v: &Vec<SavedForward>) -> (r: Vec<SavedForward>)
    ensures
        forward_views(r@) == forward_views(v@),
{
    let mut out: Vec<SavedForward> = Vec::new();
    let mut k: usize = 0;
    while k < v.len()
        invariant
            k <= v@.len(),
            forward_views(out@) == forward_views(v@).take(k as int),
        decreases v.len() - k,
    {
        let f = &v[k];
        let c = SavedForward {
            kind: f.kind.clone(),
            bind_addr: f.bind_addr.clone(),
            bind_port: f.bind_port,
            target_host: clone_opt(&f.target_host),
            target_port: f.target_port,
        };
        let ghost before = out@;
        out.push(c);
        assert(forward_views(out@) =~= forward_views(v@).take(k + 1)) by {
            assert(forward_views(out@) =~= forward_views(before).push(c@));
        }
        k = k + 1;
    }
    assert(forward_views(v@).take(k as int) =~= forward_views(v@));
    out
}

fn clone_ids(v: &Vec<i64>) -> (r: Vec<i64>)
    ensures
        r@ == v@,
{
    let mut out: Vec<i64> = Vec::new();
    let mut k: usize = 0;
    while k < v.len()
        invariant
            k <= v@.len(),
            out@ == v@.take(k as int),
        decreases v.len() - k,
    {
        out.push(v[k]);
        assert(v@.take(k + 1) =~= v@.take(k as int).push(v@[k as int]));
        k = k + 1;
    }
    assert(v@.take(k as int) =~= v@);
    out
}

impl ImportRun {
    /// The file being imported.
    pub closed spec fn file_view(&self) -> ExportFile {
        self.file
    }

    /// The records that existed before the import.
    pub closed spec fn existing_view(&self) -> Existing {
        self.ex
    }

    /// The run's state.
    pub closed spec fn model(&self) -> RunModel {
        RunModel {
            phase: self.phase,
            pending: self.pending@,
            pos: self.pos as int,
            kept: self.kept@,
            awaiting: self.awaiting,
            folder_map: self.folder_map@,
            sess: self.sess as int,
            stage: self.stage as int,
            new_id: self.new_id,
            session_map: self.session_map@,
            added: self.added@,
            needs_via: self.needs_via@,
            rest: rest_views(self.rest@),
            rest_pos: self.rest_pos as int,
            group_id: self.group_id,
            summary: self.summary@,
        }
    }

    /// The run's invariant: positions within their lists, entries within the
    /// file, and counters bounded by what was processed.
    pub closed spec fn wf(&self) -> bool {
        let nf = self.file.folders@.len();
        let s = self.summary;
        &&& nf <= usize::MAX
        &&& forall|j: int| 0 <= j < self.pending@.len() ==> #[trigger] self.pending@[j] < nf
        &&& forall|j: int| 0 <= j < self.kept@.len() ==> #[trigger] self.kept@[j] < nf
        &&& self.pos <= self.pending@.len()
        &&& self.awaiting ==> (self.phase == Phase::Folders || self.phase == Phase::Orphans) && self.pos
            < self.pending@.len()
        &&& (self.phase == Phase::Start ==> s.folders_added == 0)
        &&& (self.phase == Phase::Folders || self.phase == Phase::Orphans) ==> s.folders_added + (
        self.pending@.len() - self.pos) + self.kept@.len() <= nf
        &&& (self.phase == Phase::Start || self.phase == Phase::Folders || self.phase == Phase::Orphans)
            ==> s.sessions_added == 0 && s.sessions_skipped == 0
        &&& (self.phase != Phase::Rest && self.phase != Phase::Finished) ==> s.groups_added == 0
            && s.snippets_added == 0 && s.rules_added == 0
        &&& self.phase == Phase::Sessions ==> {
            &&& self.sess <= self.file.sessions@.len()
            &&& self.stage <= 3
            &&& (self.stage > 0 ==> self.sess < self.file.sessions@.len())
            &&& (self.stage == 3 ==> key_path_of(self.file.sessions@[self.sess as int]) is Some)
            &&& s.sessions_added + s.sessions_skipped <= self.sess
        }
        &&& self.phase == Phase::Rest ==> {
            &&& self.rest_pos <= self.rest@.len()
            &&& self.stage <= 2
            &&& (self.stage > 0 ==> self.rest_pos < self.rest@.len())
            &&& (self.stage == 2 ==> self.rest@[self.rest_pos as int] is Group)
            &&& forall|j: int| 0 <= j < self.rest@.len() ==> item_ok(self.file, #[trigger] self.rest@[j]@)
            &&& s.groups_added <= self.rest_pos && s.snippets_added <= self.rest_pos && s.rules_added
                <= self.rest_pos
        }
    }

    /// A run importing `file` onto a database holding `existing`.
    pub fn new(file: ExportFile, existing: Existing) -> (r: ImportRun)
        ensures
            r.wf(),
            r.file_view() == file,
            r.existing_view() == existing,
            r.model().phase == Phase::Start,
            r.model().summary == no_summary(),
            r.model().folder_map.len() == 0,
            r.model().session_map.len() == 0,
            r.model().added.len() == 0,
            r.model().needs_via.len() == 0,
    {
        let _n = file.folders.len();
        ImportRun {
            file,
            ex: existing,
            phase: Phase::Start,
            pending: Vec::new(),
            pos: 0,
            kept: Vec::new(),
            awaiting: false,
            folder_map: Vec::new(),
            sess: 0,
            stage: 0,
            new_id: 0,
            session_map: Vec::new(),
            added: Vec::new(),
            needs_via: Vec::new(),
            rest: Vec::new(),
            rest_pos: 0,
            group_id: 0,
            summary: empty_summary(),
        }
    }

    /// Whether the run has ended.
    pub fn is_finished(&self) -> (b: bool)
        ensures
            b == (self.model().phase == Phase::Finished),
    {
        self.phase == Phase::Finished
    }

    fn finish_err(&mut self, msg: String) -> (step: ImportStep)
        requires
            old(self).wf(),
            old(self).phase == Phase::Sessions || old(self).phase == Phase::Rest,
        ensures
            final(self).wf(),
            final(self).file == old(self).file,
            final(self).ex == old(self).ex,
            (final(self).model(), step@) == failed(old(self).model(), msg@),
    {
        self.phase = Phase::Finished;
        self.summary = empty_summary();
        ImportStep::Finished(Err(AppError::Internal(msg)))
    }

    fn start_next(&mut self) -> (step: ImportStep)
        requires
            old(self).wf(),
            old(self).phase == Phase::Start,
        ensures
            final(self).wf(),
            final(self).file == old(self).file,
            final(self).ex == old(self).ex,
            (final(self).model(), step@) == start_step(old(self).file, old(self).model()),
    {
        if self.file.zapx_export > 1 {
            let mut m = owned("el fichero es de una versión de ZAPX más nueva (export v");
            let d = crate::importers::common::u32_decimal(self.file.zapx_export);
            push_str(&mut m, d.as_str());
            push_str(&mut m, ", soportado v1)");
            self.phase = Phase::Finished;
            return ImportStep::Finished(Err(AppError::Internal(m)));
        }
        let mut pending: Vec<usize> = Vec::new();
        let mut i: usize = 0;
        while i < self.file.folders.len()
            invariant
                i <= self.file.folders@.len(),
                pending@ == Seq::new(i as nat, |k: int| k as usize),
            decreases self.file.folders.len() - i,
        {
            pending.push(i);
            assert(pending@ =~= Seq::new((i + 1) as nat, |k: int| k as usize));
            i = i + 1;
        }
        self.pending = pending;
        self.pos = 0;
        self.kept = Vec::new();
        self.awaiting = false;
        self.phase = Phase::Folders;
        assert(self.kept@ =~= Seq::<usize>::empty());
        ImportStep::Continue
    }

    fn folder_next(&mut self, answer: Option<ImportAnswer>) -> (step: ImportStep)
        requires
            old(self).wf(),
            old(self).phase == Phase::Folders,
        ensures
            final(self).wf(),
            final(self).file == old(self).file,
            final(self).ex == old(self).ex,
            (final(self).model(), step@) == folder_step(old(self).file, old(self).ex, old(self).model(), answer_view(answer)),
    {
        let ghost a = answer_view(answer);
        if self.awaiting {
            let _np = self.pending.len();
            let i = self.pending[self.pos];
            let fid = self.file.folders[i].id;
            match answer {
                Some(ImportAnswer::Id(id)) => {
                    id_insert(&mut self.folder_map, fid, id);
                    self.summary.folders_added = self.summary.folders_added + 1;
                },
                _ => {
                    let mut w = owned("carpeta «");
                    push_str(&mut w, self.file.folders[i].name.as_str());
                    push_str(&mut w, "»: ");
                    match &answer {
                        Some(ImportAnswer::Failed(m)) => push_str(&mut w, m.as_str()),
                        _ => {},
                    }
                    assert(w@ =~= folder_warning(self.file.folders@[i as int].name@, answered_msg(a)));
                    push_warning(&mut self.summary, w);
                },
            }
            self.pos = self.pos + 1;
            self.awaiting = false;
            return ImportStep::Continue;
        }
        if self.pos >= self.pending.len() {
            let orphans = self.kept.len() == self.pending.len();
            let mut kept: Vec<usize> = Vec::new();
            std::mem::swap(&mut kept, &mut self.kept);
            self.pending = kept;
            self.pos = 0;
            assert(self.kept@ =~= Seq::<usize>::empty());
            if orphans {
                self.phase = Phase::Orphans;
            }
            return ImportStep::Continue;
        }
        let i = self.pending[self.pos];
        let parent: Option<Option<i64>> = match self.file.folders[i].parent_id {
            None => Some(None),
            Some(p) => match id_lookup(&self.folder_map, p) {
                Some(n) => Some(Some(n)),
                None => None,
            },
        };
        match parent {
            None => {
                self.kept.push(i);
                self.pos = self.pos + 1;
                ImportStep::Continue
            },
            Some(pn) => match folder_match_exec(&self.ex.folders, &self.file.folders[i].name, pn) {
                Some(j) => {
                    let fid = self.file.folders[i].id;
                    let eid = self.ex.folders[j].id;
                    id_insert(&mut self.folder_map, fid, eid);
                    self.pos = self.pos + 1;
                    ImportStep::Continue
                },
                None => {
                    self.awaiting = true;
                    ImportStep::Act(ImportAction::CreateFolder { name: self.file.folders[i].name.clone(), parent: pn })
                },
            },
        }
    }

    fn orphan_next(&mut self, answer: Option<ImportAnswer>) -> (step: ImportStep)
        requires
            old(self).wf(),
            old(self).phase == Phase::Orphans,
        ensures
            final(self).wf(),
            final(self).file == old(self).file,
            final(self).ex == old(self).ex,
            (final(self).model(), step@) == orphan_step(old(self).file, old(self).ex, old(self).model(), answer_view(answer)),
    {
        if self.awaiting {
            let _np = self.pending.len();
            let i = self.pending[self.pos];
            let fid = self.file.folders[i].id;
            match answer {
                Some(ImportAnswer::Id(id)) => {
                    id_insert(&mut self.folder_map, fid, id);
                    self.summary.folders_added = self.summary.folders_added + 1;
                },
                _ => {},
            }
            self.pos = self.pos + 1;
            self.awaiting = false;
            return ImportStep::Continue;
        }
        if self.pos >= self.pending.len() {
            self.phase = Phase::Sessions;
            self.sess = 0;
            self.stage = 0;
            return ImportStep::Continue;
        }
        let i = self.pending[self.pos];
        let mut w = owned("carpeta «");
        push_str(&mut w, self.file.folders[i].name.as_str());
        push_str(&mut w, "»: padre no incluido en el export — movida a la raíz");
        push_warning(&mut self.summary, w);
        match folder_match_exec(&self.ex.folders, &self.file.folders[i].name, None) {
            Some(j) => {
                let fid = self.file.folders[i].id;
                let eid = self.ex.folders[j].id;
                id_insert(&mut self.folder_map, fid, eid);
                self.pos = self.pos + 1;
                ImportStep::Continue
            },
            None => {
                self.awaiting = true;
                ImportStep::Act(ImportAction::CreateFolder { name: self.file.folders[i].name.clone(), parent: None })
            },
        }
    }

    fn session_finish(&mut self)
        requires
            old(self).wf(),
            old(self).phase == Phase::Sessions,
            old(self).sess < old(self).file.sessions@.len(),
        ensures
            final(self).wf(),
            final(self).file == old(self).file,
            final(self).ex == old(self).ex,
            final(self).model() == session_done(old(self).file, old(self).model()),
    {
        let _n = self.file.sessions.len();
        let k = self.sess;
        let sid = self.file.sessions[k].id;
        id_insert(&mut self.session_map, sid, self.new_id);
        self.added.push(sid);
        self.summary.sessions_added = self.summary.sessions_added + 1;
        self.sess = k + 1;
        self.stage = 0;
    }

    fn after_script_exec(&mut self) -> (step: ImportStep)
        requires
            old(self).wf(),
            old(self).phase == Phase::Sessions,
            old(self).sess < old(self).file.sessions@.len(),
        ensures
            final(self).wf(),
            final(self).file == old(self).file,
            final(self).ex == old(self).ex,
            (final(self).model(), step@) == after_script(old(self).file, old(self).model()),
    {
        let k = self.sess;
        match self.file.sessions[k].via_session_id {
            Some(v) => {
                self.needs_via.push((self.new_id, v));
            },
            None => {},
        }
        let is_key = match &self.file.sessions[k].auth_method {
            Some(m) => crate::text::str_is(m.as_str(), "key"),
            None => false,
        };
        if is_key {
            match crate::connect::json_str(self.file.sessions[k].options_json.as_str(), "key_path") {
                Some(p) => {
                    self.stage = 3;
                    return ImportStep::Act(ImportAction::CheckKeyFile { path: p });
                },
                None => {},
            }
        }
        self.session_finish();
        ImportStep::Continue
    }

    fn session_next(&mut self, answer: Option<ImportAnswer>) -> (step: ImportStep)
        requires
            old(self).wf(),
            old(self).phase == Phase::Sessions,
        ensures
            final(self).wf(),
            final(self).file == old(self).file,
            final(self).ex == old(self).ex,
            (final(self).model(), step@) == session_step(old(self).file, old(self).ex, old(self).model(), answer_view(answer)),
    {
        let ghost a = answer_view(answer);
        let _n = self.file.sessions.len();
        if self.stage == 0 {
            if self.sess >= self.file.sessions.len() {
                let items = plan_rest(
                    &self.file,
                    &self.ex,
                    &self.session_map,
                    &self.added,
                    &self.needs_via,
                    &mut self.summary.warnings,
                );
                self.rest = items;
                self.rest_pos = 0;
                self.stage = 0;
                self.phase = Phase::Rest;
                return ImportStep::Continue;
            }
            let k = self.sess;
            match session_match_exec(&self.ex.sessions, &self.file.sessions[k]) {
                Some(j) => {
                    let sid = self.file.sessions[k].id;
                    let eid = self.ex.sessions[j].id;
                    id_insert(&mut self.session_map, sid, eid);
                    self.summary.sessions_skipped = self.summary.sessions_skipped + 1;
                    self.sess = k + 1;
                    return ImportStep::Continue;
                },
                None => {
                    let s = &self.file.sessions[k];
                    let folder = match s.folder_id {
                        Some(f) => id_lookup(&self.folder_map, f),
                        None => None,
                    };
                    let act = ImportAction::CreateSession {
                        folder,
                        name: s.name.clone(),
                        protocol: s.protocol.clone(),
                        host: clone_opt(&s.host),
                        port: s.port,
                        username: clone_opt(&s.username),
                        options_json: s.options_json.clone(),
                        auth_method: clone_opt(&s.auth_method),
                    };
                    self.stage = 1;
                    return ImportStep::Act(act);
                },
            }
        }
        if self.stage == 1 {
            match answer {
                Some(ImportAnswer::Id(id)) => {
                    self.new_id = id;
                    let k = self.sess;
                    match &self.file.sessions[k].login_script_json {
                        Some(sc) => {
                            let script = sc.clone();
                            self.stage = 2;
                            return ImportStep::Act(ImportAction::SetLoginScript { session: id, script });
                        },
                        None => {
                            return self.after_script_exec();
                        },
                    }
                },
                Some(ImportAnswer::Failed(m)) => {
                    return self.finish_err(m);
                },
                _ => {
                    return self.finish_err(String::new());
                },
            }
        }
        if self.stage == 2 {
            match answer {
                Some(ImportAnswer::Failed(m)) => {
                    return self.finish_err(m);
                },
                _ => {
                    return self.after_script_exec();
                },
            }
        }
        let k = self.sess;
        match answer {
            Some(ImportAnswer::Exists(false)) => {
                let p = match crate::connect::json_str(self.file.sessions[k].options_json.as_str(), "key_path") {
                    Some(p) => p,
                    None => String::new(),
                };
                let mut w = owned("sesión «");
                push_str(&mut w, self.file.sessions[k].name.as_str());
                push_str(&mut w, "»: la clave ");
                push_str(&mut w, p.as_str());
                push_str(&mut w, " no existe en esta máquina");
                push_warning(&mut self.summary, w);
            },
            _ => {},
        }
        self.session_finish();
        ImportStep::Continue
    }

    fn rest_act(&self) -> (step: ImportStep)
        requires
            self.wf(),
            self.phase == Phase::Rest,
            self.rest_pos < self.rest@.len(),
        ensures
            step@ == StepView::Act(rest_action(self.file, self.model().rest[self.model().rest_pos])),
    {
        assert(item_ok(self.file, self.rest@[self.rest_pos as int]@));
        let act = match &self.rest[self.rest_pos] {
            RestItem::Forwards { session, entry } => ImportAction::SetForwards {
                session: *session,
                forwards: clone_forwards(&self.file.session_forwards[*entry].forwards),
            },
            RestItem::Via { session, via } => ImportAction::SetVia { session: *session, via: *via },
            RestItem::Group { entry, members } => ImportAction::CreateGroup {
                name: self.file.broadcast_groups[*entry].name.clone(),
            },
            RestItem::Snippet { entry } => {
                let sn = &self.file.snippets[*entry];
                ImportAction::CreateSnippet {
                    name: sn.name.clone(),
                    content: sn.content.clone(),
                    platform: clone_opt(&sn.platform),
                    color: clone_opt(&sn.color),
                }
            },
            RestItem::Rule { entry } => {
                let r = &self.file.highlight_rules[*entry];
                ImportAction::CreateRule {
                    name: r.name.clone(),
                    pattern: r.pattern.clone(),
                    is_regex: r.is_regex,
                    fg_color: clone_opt(&r.fg_color),
                    bg_color: clone_opt(&r.bg_color),
                    bold: r.bold,
                    underline: r.underline,
                }
            },
        };
        ImportStep::Act(act)
    }

    fn rest_next(&mut self, answer: Option<ImportAnswer>) -> (step: ImportStep)
        requires
            old(self).wf(),
            old(self).phase == Phase::Rest,
        ensures
            final(self).wf(),
            final(self).file == old(self).file,
            final(self).ex == old(self).ex,
            (final(self).model(), step@) == rest_step(old(self).file, old(self).model(), answer_view(answer)),
    {
        let _n = self.rest.len();
        if self.stage == 0 {
            if self.rest_pos >= self.rest.len() {
                let mut done = empty_summary();
                std::mem::swap(&mut done, &mut self.summary);
                self.phase = Phase::Finished;
                return ImportStep::Finished(Ok(done));
            }
            let step = self.rest_act();
            self.stage = 1;
            return step;
        }
        let failure = match &answer {
            Some(ImportAnswer::Failed(_)) => true,
            _ => false,
        };
        let msg = match &answer {
            Some(ImportAnswer::Failed(m)) => m.clone(),
            _ => String::new(),
        };
        let got_id: Option<i64> = match &answer {
            Some(ImportAnswer::Id(i)) => Some(*i),
            _ => None,
        };
        if self.stage == 2 {
            if failure {
                return self.finish_err(msg);
            }
            self.summary.groups_added = self.summary.groups_added + 1;
            self.rest_pos = self.rest_pos + 1;
            self.stage = 0;
            return ImportStep::Continue;
        }
        let p = self.rest_pos;
        let kind: u8 = match &self.rest[p] {
            RestItem::Group { .. } => 0,
            RestItem::Snippet { .. } => 1,
            RestItem::Rule { .. } => 2,
            _ => 3,
        };
        if kind == 0 {
            match got_id {
                Some(g) => {
                    let members = match &self.rest[p] {
                        RestItem::Group { members, .. } => clone_ids(members),
                        _ => Vec::new(),
                    };
                    self.stage = 2;
                    self.group_id = g;
                    return ImportStep::Act(ImportAction::SetGroupMembers { group: g, members });
                },
                None => {
                    return self.finish_err(msg);
                },
            }
        }
        if kind == 1 || kind == 2 {
            match got_id {
                Some(_) => {
                    if kind == 1 {
                        self.summary.snippets_added = self.summary.snippets_added + 1;
                    } else {
                        self.summary.rules_added = self.summary.rules_added + 1;
                    }
                    self.rest_pos = p + 1;
                    self.stage = 0;
                    return ImportStep::Continue;
                },
                None => {
                    return self.finish_err(msg);
                },
            }
        }
        if failure {
            return self.finish_err(msg);
        }
        self.rest_pos = p + 1;
        self.stage = 0;
        ImportStep::Continue
    }

    /// The next step, given the answer to the previous write (`None` on the
    /// first call and after `Continue`).
    pub fn next(&mut self, answer: Option<ImportAnswer>) -> (step: ImportStep)
        requires
            old(self).wf(),
            old(self).model().phase != Phase::Finished,
        ensures
            final(self).wf(),
            final(self).file_view() == old(self).file_view(),
            final(self).existing_view() == old(self).existing_view(),
            (final(self).model(), step@) == run_step(
                old(self).file_view(),
                old(self).existing_view(),
                old(self).model(),
                answer_view(answer),
            ),
    {
        match self.phase {
            Phase::Start => self.start_next(),
            Phase::Folders => self.folder_next(answer),
            Phase::Orphans => self.orphan_next(answer),
            Phase::Sessions => self.session_next(answer),
            Phase::Rest => self.rest_next(answer),
            Phase::Finished => ImportStep::Continue,
        }
    }

    /// The session id map: each file session's id and the id it has in the
    /// database (new or matched).
    pub fn session_id_map(&self) -> (r: Vec<(i64, i64)>)
        ensures
            r@ == self.model().session_map,
    {
        let mut out: Vec<(i64, i64)> = Vec::new();
        let mut k: usize = 0;
        while k < self.session_map.len()
            invariant
                k <= self.session_map@.len(),
                out@ == self.session_map@.take(k as int),
            decreases self.session_map.len() - k,
        {
            out.push(self.session_map[k]);
            assert(self.session_map@.take(k + 1) =~= self.session_map@.take(k as int).push(self.session_map@[k as int]));
            k = k + 1;
        }
        assert(self.session_map@.take(k as int) =~= self.session_map@);
        out
    }
}

// ---------------------------------------------------------------------------
// Laws
// ---------------------------------------------------------------------------

proof fn lemma_group_items_new(gs: Seq<BroadcastGroup>, ex: Seq<BroadcastGroup>, smap: Seq<(i64, i64)>, k: int)
    requires
        0 <= k,
    ensures
        forall|j: int|
            0 <= j < group_items(gs, ex, smap, k).0.len() ==> (#[trigger] group_items(gs, ex, smap, k).0[j] matches RestView::Group { entry, members }
                && 0 <= entry < gs.len() && !group_exists(ex, gs[entry].name@)),
    decreases gs.len() - k,
{
    if k < gs.len() {
        lemma_group_items_new(gs, ex, smap, k + 1);
        let rest = group_items(gs, ex, smap, k + 1);
        if !group_exists(ex, gs[k].name@) {
            let members = mapped_members(smap, gs[k].session_ids@);
            let all = seq![RestView::Group { entry: k, members }] + rest.0;
            assert forall|j: int| 0 <= j < all.len() implies (#[trigger] all[j] matches RestView::Group { entry, members }
                && 0 <= entry < gs.len() && !group_exists(ex, gs[entry].name@)) by {
                if j > 0 {
                    assert(all[j] == rest.0[j - 1]);
                }
            }
        }
    }
}

proof fn lemma_snippet_items_new(sn: Seq<Snippet>, ex: Seq<Snippet>, k: int)
    requires
        0 <= k,
    ensures
        forall|j: int|
            0 <= j < snippet_items(sn, ex, k).len() ==> (#[trigger] snippet_items(sn, ex, k)[j] matches RestView::Snippet { entry }
                && 0 <= entry < sn.len() && !snippet_exists(ex, sn[entry])),
    decreases sn.len() - k,
{
    if k < sn.len() {
        lemma_snippet_items_new(sn, ex, k + 1);
        let rest = snippet_items(sn, ex, k + 1);
        let head: Seq<RestView> = if snippet_exists(ex, sn[k]) {
            Seq::empty()
        } else {
            seq![RestView::Snippet { entry: k }]
        };
        let all = head + rest;
        assert forall|j: int| 0 <= j < all.len() implies (#[trigger] all[j] matches RestView::Snippet { entry }
            && 0 <= entry < sn.len() && !snippet_exists(ex, sn[entry])) by {
            if j >= head.len() {
                assert(all[j] == rest[j - head.len()]);
            }
        }
    }
}

proof fn lemma_rule_items_new(rs: Seq<HighlightRule>, ex: Seq<HighlightRule>, k: int)
    requires
        0 <= k,
    ensures
        forall|j: int|
            0 <= j < rule_items(rs, ex, k).len() ==> (#[trigger] rule_items(rs, ex, k)[j] matches RestView::Rule { entry }
                && 0 <= entry < rs.len() && !rule_exists(ex, rs[entry])),
    decreases rs.len() - k,
{
    if k < rs.len() {
        lemma_rule_items_new(rs, ex, k + 1);
        let rest = rule_items(rs, ex, k + 1);
        let head: Seq<RestView> = if rule_exists(ex, rs[k]) {
            Seq::empty()
        } else {
            seq![RestView::Rule { entry: k }]
        };
        let all = head + rest;
        assert forall|j: int| 0 <= j < all.len() implies (#[trigger] all[j] matches RestView::Rule { entry }
            && 0 <= entry < rs.len() && !rule_exists(ex, rs[entry])) by {
            if j >= head.len() {
                assert(all[j] == rest[j - head.len()]);
            }
        }
    }
}

/// An import never duplicates what exists: the groups, snippets and rules
/// it plans to create are only those without an existing twin (same group
/// name; same snippet name and platform; same rule pattern and kind).
pub proof fn lemma_plan_skips_existing(file: ExportFile, ex: Existing, smap: Seq<(i64, i64)>)
    ensures
        forall|j: int|
            0 <= j < group_items(file.broadcast_groups@, ex.groups@, smap, 0).0.len() ==> (#[trigger] group_items(
                file.broadcast_groups@,
                ex.groups@,
                smap,
                0,
            ).0[j] matches RestView::Group { entry, members } && !group_exists(ex.groups@, file.broadcast_groups@[entry].name@)),
        forall|j: int|
            0 <= j < snippet_items(file.snippets@, ex.snippets@, 0).len() ==> (#[trigger] snippet_items(
                file.snippets@,
                ex.snippets@,
                0,
            )[j] matches RestView::Snippet { entry } && !snippet_exists(ex.snippets@, file.snippets@[entry])),
        forall|j: int|
            0 <= j < rule_items(file.highlight_rules@, ex.rules@, 0).len() ==> (#[trigger] rule_items(
                file.highlight_rules@,
                ex.rules@,
                0,
            )[j] matches RestView::Rule { entry } && !rule_exists(ex.rules@, file.highlight_rules@[entry])),
{
    lemma_group_items_new(file.broadcast_groups@, ex.groups@, smap, 0);
    lemma_snippet_items_new(file.snippets@, ex.snippets@, 0);
    lemma_rule_items_new(file.highlight_rules@, ex.rules@, 0);
}

/// A session identical to an existing one (same name, protocol, host and
/// port) is never created: the run maps it to the existing session and
/// counts it skipped.
pub proof fn lemma_existing_session_skipped(file: ExportFile, ex: Existing, m: RunModel, a: Option<AnswerView>)
    requires
        m.phase == Phase::Sessions,
        m.stage == 0,
        0 <= m.sess < file.sessions@.len(),
        session_match(ex.sessions@, file.sessions@[m.sess], 0) is Some,
    ensures
        run_step(file, ex, m, a).1 == StepView::Continue,
        run_step(file, ex, m, a).0.summary.sessions_skipped == m.summary.sessions_skipped + 1,
        run_step(file, ex, m, a).0.summary.sessions_added == m.summary.sessions_added,
{
}

/// A folder with an existing twin (same name under the same remapped
/// parent) is never created: the run maps it to the existing folder.
pub proof fn lemma_existing_folder_reused(file: ExportFile, ex: Existing, m: RunModel, a: Option<AnswerView>, pn: Option<i64>)
    requires
        m.phase == Phase::Folders,
        !m.awaiting,
        0 <= m.pos < m.pending.len(),
        (file.folders@[m.pending[m.pos] as int].parent_id matches Some(p) ==> id_get(m.folder_map, p) == pn
            && pn is Some),
        file.folders@[m.pending[m.pos] as int].parent_id is None ==> pn is None,
        folder_match(ex.folders@, file.folders@[m.pending[m.pos] as int].name@, pn, 0) is Some,
    ensures
        run_step(file, ex, m, a).1 == StepView::Continue,
        run_step(file, ex, m, a).0.summary.folders_added == m.summary.folders_added,
{
}

/// Whether every session, group, snippet and rule of `file` already has a
/// twin in `ex`.
pub open spec fn all_present(file: ExportFile, ex: Existing) -> bool {
    &&& forall|i: int|
        0 <= i < file.sessions@.len() ==> session_match(ex.sessions@, #[trigger] file.sessions@[i], 0) is Some
    &&& forall|i: int|
        0 <= i < file.broadcast_groups@.len() ==> group_exists(ex.groups@, (#[trigger] file.broadcast_groups@[i]).name@)
    &&& forall|i: int| 0 <= i < file.snippets@.len() ==> snippet_exists(ex.snippets@, #[trigger] file.snippets@[i])
    &&& forall|i: int|
        0 <= i < file.highlight_rules@.len() ==> rule_exists(ex.rules@, #[trigger] file.highlight_rules@[i])
}

/// The steps of a run from `m`, one per answer handed in.
pub open spec fn run_steps(file: ExportFile, ex: Existing, m: RunModel, answers: Seq<Option<AnswerView>>) -> (
    RunModel,
    Seq<StepView>,
)
    decreases answers.len(),
{
    if answers.len() == 0 {
        (m, Seq::empty())
    } else {
        let (m1, st) = run_step(file, ex, m, answers[0]);
        let (mf, rest) = run_steps(file, ex, m1, answers.drop_first());
        (mf, seq![st] + rest)
    }
}

/// A step that creates nothing but folders, and a finished run that reports
/// no session, group, snippet or rule added and every session of the file
/// skipped.
pub open spec fn adds_no_records(file: ExportFile, st: StepView) -> bool {
    match st {
        StepView::Act(ActionView::CreateFolder { .. }) => true,
        StepView::Act(_) => false,
        StepView::Continue => true,
        StepView::Finished(Ok(s)) => s.sessions_added == 0 && s.groups_added == 0 && s.snippets_added == 0
            && s.rules_added == 0 && s.sessions_skipped == file.sessions@.len(),
        StepView::Finished(Err(_)) => true,
    }
}

spec fn reimport_inv(file: ExportFile, m: RunModel) -> bool {
    &&& (m.phase == Phase::Start || m.phase == Phase::Folders || m.phase == Phase::Orphans)
        ==> m.summary.sessions_skipped == 0
    &&& m.phase == Phase::Sessions ==> m.summary.sessions_skipped == m.sess && m.sess <= file.sessions@.len()
    &&& m.phase == Phase::Rest ==> m.summary.sessions_skipped == file.sessions@.len()
    &&& m.summary.sessions_added == 0
    &&& m.summary.groups_added == 0
    &&& m.summary.snippets_added == 0
    &&& m.summary.rules_added == 0
    &&& m.added.len() == 0
    &&& m.needs_via.len() == 0
    &&& m.phase == Phase::Sessions ==> m.stage == 0 && m.sess >= 0
    &&& m.phase == Phase::Rest ==> m.stage == 0 && m.rest.len() == 0 && m.rest_pos == 0
}

proof fn lemma_forward_items_none_added(fwds: Seq<crate::model::SessionForwards>, smap: Seq<(i64, i64)>, added: Seq<i64>, k: int)
    requires
        added.len() == 0,
    ensures
        forward_items(fwds, smap, added, k).len() == 0,
    decreases fwds.len() - k,
{
    if 0 <= k < fwds.len() {
        lemma_forward_items_none_added(fwds, smap, added, k + 1);
        assert(!added.contains(fwds[k].session_id));
    }
}

proof fn lemma_reimport_step(file: ExportFile, ex: Existing, m: RunModel, a: Option<AnswerView>)
    requires
        all_present(file, ex),
        reimport_inv(file, m),
    ensures
        reimport_inv(file, run_step(file, ex, m, a).0),
        adds_no_records(file, run_step(file, ex, m, a).1),
{
    if m.phase == Phase::Sessions && m.sess >= file.sessions@.len() {
        let v = via_items(m.session_map, m.needs_via, 0);
        let g = group_items(file.broadcast_groups@, ex.groups@, m.session_map, 0);
        lemma_forward_items_none_added(file.session_forwards@, m.session_map, m.added, 0);
        lemma_group_items_new(file.broadcast_groups@, ex.groups@, m.session_map, 0);
        lemma_snippet_items_new(file.snippets@, ex.snippets@, 0);
        lemma_rule_items_new(file.highlight_rules@, ex.rules@, 0);
        if g.0.len() > 0 {
            let e = g.0[0]->Group_entry;
            assert(group_exists(ex.groups@, file.broadcast_groups@[e].name@));
        }
        let sn = snippet_items(file.snippets@, ex.snippets@, 0);
        if sn.len() > 0 {
            let e = sn[0]->Snippet_entry;
            assert(snippet_exists(ex.snippets@, file.snippets@[e]));
        }
        let ru = rule_items(file.highlight_rules@, ex.rules@, 0);
        if ru.len() > 0 {
            let e = ru[0]->Rule_entry;
            assert(rule_exists(ex.rules@, file.highlight_rules@[e]));
        }
        assert(rest_plan(file, ex, m.session_map, m.added, m.needs_via).0.len() == 0);
    } else if m.phase == Phase::Sessions {
        assert(session_match(ex.sessions@, file.sessions@[m.sess], 0) is Some);
    }
}

/// Importing a file whose sessions, groups, snippets and rules all exist
/// already adds none of them: whatever the store answers, the only writes
/// the run asks for create folders, and a finished run reports no session,
/// group, snippet or rule added and every session skipped.
pub proof fn lemma_reimport_adds_nothing(file: ExportFile, ex: Existing, m: RunModel, answers: Seq<Option<AnswerView>>)
    requires
        all_present(file, ex),
        m.phase == Phase::Start,
        m.summary == no_summary(),
        m.added.len() == 0,
        m.needs_via.len() == 0,
    ensures
        forall|j: int|
            0 <= j < run_steps(file, ex, m, answers).1.len() ==> adds_no_records(
                file,
                #[trigger] run_steps(file, ex, m, answers).1[j],
            ),
{
    lemma_reimport_steps(file, ex, m, answers);
}

proof fn lemma_reimport_steps(file: ExportFile, ex: Existing, m: RunModel, answers: Seq<Option<AnswerView>>)
    requires
        all_present(file, ex),
        reimport_inv(file, m),
    ensures
        forall|j: int|
            0 <= j < run_steps(file, ex, m, answers).1.len() ==> adds_no_records(
                file,
                #[trigger] run_steps(file, ex, m, answers).1[j],
            ),
    decreases answers.len(),
{
    if answers.len() > 0 {
        lemma_reimport_step(file, ex, m, answers[0]);
        let (m1, st) = run_step(file, ex, m, answers[0]);
        lemma_reimport_steps(file, ex, m1, answers.drop_first());
        let rest = run_steps(file, ex, m1, answers.drop_first()).1;
        let all = seq![st] + rest;
        assert forall|j: int| 0 <= j < all.len() implies adds_no_records(file, #[trigger] all[j]) by {
            if j > 0 {
                assert(all[j] == rest[j - 1]);
            }
        }
    }
}

// ---------------------------------------------------------------------------
// Re-importing the folder tree
// ---------------------------------------------------------------------------

/// The existing folder that file folder `i` is reused as, walking up through
/// at most `fuel` ancestors: a root folder is looked up by name at the root,
/// another under its parent's twin. `None` for a folder whose parent is not
/// in the file, or whose chain of parents does not end within `fuel` steps.
pub open spec fn twin(fs: Seq<Folder>, ex: Seq<Folder>, i: int, fuel: nat) -> Option<int>
    decreases fuel,
{
    if fuel == 0 {
        None
    } else {
        match fs[i].parent_id {
            None => folder_match(ex, fs[i].name@, None, 0),
            Some(p) => match crate::canon::find_folder(fs, p, 0) {
                None => None,
                Some(k) => match twin(fs, ex, k, (fuel - 1) as nat) {
                    Some(t) => folder_match(ex, fs[i].name@, Some(ex[t].id), 0),
                    None => None,
                },
            },
        }
    }
}

/// Whether the file's folder tree already exists: distinct ids, every
/// folder's chain of parents ends at the root within the file, and each
/// folder has an existing twin under its parent's twin.
pub open spec fn folders_present(file: ExportFile, ex: Existing) -> bool {
    let fs = file.folders@;
    &&& forall|i: int, j: int| 0 <= i < j < fs.len() ==> (#[trigger] fs[i]).id != (#[trigger] fs[j]).id
    &&& forall|i: int| 0 <= i < fs.len() ==> (#[trigger] twin(fs, ex.folders@, i, fs.len())) is Some
}

proof fn lemma_id_index_char(m: Seq<(i64, i64)>, k: i64, from: int)
    requires
        0 <= from,
    ensures
        match id_index(m, k, from) {
            Some(i) => from <= i < m.len() && m[i].0 == k && forall|j: int| from <= j < i ==> (#[trigger] m[j]).0 != k,
            None => forall|j: int| from <= j < m.len() ==> (#[trigger] m[j]).0 != k,
        },
    decreases m.len() - from,
{
    if from < m.len() && m[from].0 != k {
        lemma_id_index_char(m, k, from + 1);
    }
}

proof fn lemma_id_index_from_char(m: Seq<(i64, i64)>, k: i64, r: Option<int>)
    requires
        match r {
            Some(i) => 0 <= i < m.len() && m[i].0 == k && forall|j: int| 0 <= j < i ==> (#[trigger] m[j]).0 != k,
            None => forall|j: int| 0 <= j < m.len() ==> (#[trigger] m[j]).0 != k,
        },
    ensures
        id_index(m, k, 0) == r,
{
    lemma_id_index_char(m, k, 0);
    match (id_index(m, k, 0), r) {
        (Some(a), Some(b)) => {
            if a < b {
                assert(m[a].0 != k);
            } else if b < a {
                assert(m[b].0 != k);
            }
        },
        (Some(a), None) => {
            assert(m[a].0 != k);
        },
        (None, Some(b)) => {
            assert(m[b].0 != k);
        },
        (None, None) => {},
    }
}

proof fn lemma_id_put_get(m: Seq<(i64, i64)>, k: i64, v: i64, k2: i64)
    ensures
        id_get(id_put(m, k, v), k2) == if k2 == k {
            Some(v)
        } else {
            id_get(m, k2)
        },
{
    lemma_id_index_char(m, k, 0);
    lemma_id_index_char(m, k2, 0);
    let m2 = id_put(m, k, v);
    match id_index(m, k, 0) {
        Some(i) => {
            if k2 == k {
                lemma_id_index_from_char(m2, k2, Some(i));
            } else {
                match id_index(m, k2, 0) {
                    Some(j) => {
                        assert(j != i);
                        lemma_id_index_from_char(m2, k2, Some(j));
                    },
                    None => {
                        lemma_id_index_from_char(m2, k2, None);
                    },
                }
            }
        },
        None => {
            if k2 == k {
                lemma_id_index_from_char(m2, k2, Some(m.len() as int));
            } else {
                match id_index(m, k2, 0) {
                    Some(j) => {
                        lemma_id_index_from_char(m2, k2, Some(j));
                    },
                    None => {
                        lemma_id_index_from_char(m2, k2, None);
                    },
                }
            }
        },
    }
}

proof fn lemma_folder_match_range(ex: Seq<Folder>, name: Seq<char>, parent: Option<i64>, from: int)
    ensures
        folder_match(ex, name, parent, from) matches Some(j) ==> 0 <= from <= j < ex.len(),
    decreases ex.len() - from,
{
    if 0 <= from < ex.len() && !(ex[from].name@ == name && ex[from].parent_id == parent) {
        lemma_folder_match_range(ex, name, parent, from + 1);
    }
}

proof fn lemma_find_folder_range(fs: Seq<Folder>, id: i64, from: int)
    ensures
        crate::canon::find_folder(fs, id, from) matches Some(k) ==> 0 <= from <= k < fs.len() && fs[k].id == id,
    decreases fs.len() - from,
{
    if 0 <= from < fs.len() && fs[from].id != id {
        lemma_find_folder_range(fs, id, from + 1);
    }
}

proof fn lemma_twin_monotone(fs: Seq<Folder>, ex: Seq<Folder>, i: int, d: nat, e: nat)
    requires
        d <= e,
        twin(fs, ex, i, d) is Some,
    ensures
        twin(fs, ex, i, e) == twin(fs, ex, i, d),
    decreases d,
{
    match fs[i].parent_id {
        None => {},
        Some(p) => {
            let k = crate::canon::find_folder(fs, p, 0).unwrap();
            lemma_twin_monotone(fs, ex, k, (d - 1) as nat, (e - 1) as nat);
        },
    }
}

/// The reused twin of file folder `i` (when the tree is present).
pub open spec fn twin_of(file: ExportFile, ex: Existing, i: int) -> int {
    twin(file.folders@, ex.folders@, i, file.folders@.len()).unwrap()
}

/// What is left of the folders in this phase: the pending ones not yet
/// processed and those kept for the next round.
pub open spec fn remaining(m: RunModel) -> Seq<usize> {
    m.pending.skip(m.pos) + m.kept
}

spec fn folder_inv(file: ExportFile, ex: Existing, m: RunModel) -> bool {
    let fs = file.folders@;
    let nf = fs.len();
    &&& nf <= usize::MAX
    &&& m.summary.folders_added == 0
    &&& m.phase == Phase::Start ==> m.folder_map.len() == 0
    &&& (m.phase == Phase::Folders || m.phase == Phase::Orphans) ==> {
        &&& !m.awaiting
        &&& 0 <= m.pos <= m.pending.len()
        &&& m.kept.len() <= m.pos
        &&& forall|j: int| 0 <= j < m.pending.len() ==> (#[trigger] m.pending[j]) < nf
        &&& forall|j: int| 0 <= j < m.kept.len() ==> (#[trigger] m.kept[j]) < nf
        &&& forall|k: int|
            0 <= k < nf ==> match #[trigger] id_get(m.folder_map, fs[k].id) {
                Some(v) => v == ex.folders@[twin_of(file, ex, k)].id,
                None => remaining(m).contains(k as usize),
            }
        &&& m.kept.len() == m.pos ==> forall|j: int|
            0 <= j < m.kept.len() ==> (fs[#[trigger] m.kept[j] as int].parent_id matches Some(p) && id_get(
                m.folder_map,
                p,
            ) is None)
    }
    &&& m.phase == Phase::Orphans ==> m.pending.len() == 0
}

/// At a round that mapped nothing, no kept folder has a twin within `d`
/// steps.
proof fn lemma_stall_no_twin(file: ExportFile, ex: Existing, m: RunModel, d: nat)
    requires
        folders_present(file, ex),
        folder_inv(file, ex, m),
        m.phase == Phase::Folders,
        m.pos >= m.pending.len(),
        m.kept.len() == m.pending.len(),
    ensures
        forall|j: int| 0 <= j < m.kept.len() ==> twin(file.folders@, ex.folders@, #[trigger] m.kept[j] as int, d) is None,
    decreases d,
{
    let fs = file.folders@;
    if d > 0 {
        lemma_stall_no_twin(file, ex, m, (d - 1) as nat);
        assert forall|j: int| 0 <= j < m.kept.len() implies twin(fs, ex.folders@, #[trigger] m.kept[j] as int, d) is None by {
            let k = m.kept[j] as int;
            let p = fs[k].parent_id.unwrap();
            lemma_find_folder_range(fs, p, 0);
            match crate::canon::find_folder(fs, p, 0) {
                None => {},
                Some(kp) => {
                    if twin(fs, ex.folders@, kp, (d - 1) as nat) is Some {
                        assert(id_get(m.folder_map, fs[kp].id) is None);
                        assert(remaining(m).contains(kp as usize));
                        assert(m.pending.skip(m.pos).len() == 0);
                        assert(remaining(m) =~= m.kept);
                        let q = choose|q: int| 0 <= q < m.kept.len() && m.kept[q] == kp as usize;
                        assert(twin(fs, ex.folders@, m.kept[q] as int, (d - 1) as nat) is None);
                    }
                },
            }
        }
    }
}

proof fn lemma_folder_step(file: ExportFile, ex: Existing, m: RunModel, a: Option<AnswerView>)
    requires
        folders_present(file, ex),
        folder_inv(file, ex, m),
        m.phase == Phase::Start || m.phase == Phase::Folders || m.phase == Phase::Orphans,
    ensures
        folder_inv(file, ex, run_step(file, ex, m, a).0),
        !(run_step(file, ex, m, a).1 is Act),
        run_step(file, ex, m, a).0.summary.sessions_added == m.summary.sessions_added,
        run_step(file, ex, m, a).0.summary.sessions_skipped == m.summary.sessions_skipped,
        run_step(file, ex, m, a).0.summary.groups_added == m.summary.groups_added,
        run_step(file, ex, m, a).0.summary.snippets_added == m.summary.snippets_added,
        run_step(file, ex, m, a).0.summary.rules_added == m.summary.rules_added,
        run_step(file, ex, m, a).0.added == m.added,
        run_step(file, ex, m, a).0.needs_via == m.needs_via,
        run_step(file, ex, m, a).0.phase == Phase::Sessions ==> run_step(file, ex, m, a).0.sess == 0
            && run_step(file, ex, m, a).0.stage == 0,
{
    let fs = file.folders@;
    let nf = fs.len();
    let r = run_step(file, ex, m, a).0;
    if m.phase == Phase::Start {
        if file.zapx_export <= 1 {
            assert forall|k: int| 0 <= k < nf implies match #[trigger] id_get(r.folder_map, fs[k].id) {
                Some(v) => v == ex.folders@[twin_of(file, ex, k)].id,
                None => remaining(r).contains(k as usize),
            } by {
                assert(id_index(r.folder_map, fs[k].id, 0) is None);
                assert(remaining(r)[k] == k as usize);
            }
        }
    } else if m.phase == Phase::Orphans {
    } else if m.pos >= m.pending.len() {
        if m.kept.len() == m.pending.len() {
            lemma_stall_no_twin(file, ex, m, nf);
            if m.kept.len() > 0 {
                assert(twin(fs, ex.folders@, m.kept[0] as int, nf) is None);
            }
        } else {
            assert(m.pending.skip(m.pos) =~= Seq::<usize>::empty());
            assert(remaining(m) =~= m.kept);
            assert(remaining(r) =~= m.kept);
        }
    } else {
        let i = m.pending[m.pos] as int;
        let f = fs[i];
        assert(remaining(m) =~= seq![i as usize] + remaining(RunModel { pos: m.pos + 1, ..m })) by {
            assert(m.pending.skip(m.pos) =~= seq![m.pending[m.pos]] + m.pending.skip(m.pos + 1));
        }
        let t = twin(fs, ex.folders@, i, nf);
        assert(t is Some);
        match f.parent_id {
            None => {
                lemma_folder_match_range(ex.folders@, f.name@, None, 0);
                assert forall|k: int| 0 <= k < nf implies match #[trigger] id_get(r.folder_map, fs[k].id) {
                    Some(v) => v == ex.folders@[twin_of(file, ex, k)].id,
                    None => remaining(r).contains(k as usize),
                } by {
                    lemma_id_put_get(m.folder_map, f.id, ex.folders@[t.unwrap()].id, fs[k].id);
                    if k != i {
                        assert(fs[k].id != f.id);
                        if id_get(m.folder_map, fs[k].id) is None {
                            assert(remaining(m).contains(k as usize));
                            let q = choose|q: int| 0 <= q < remaining(m).len() && remaining(m)[q] == k as usize;
                            assert(q > 0);
                            assert(remaining(r)[q - 1] == k as usize);
                        }
                    }
                }
            },
            Some(p) => {
                lemma_find_folder_range(fs, p, 0);
                let kp = crate::canon::find_folder(fs, p, 0).unwrap();
                lemma_twin_monotone(fs, ex.folders@, kp, (nf - 1) as nat, nf);
                match id_get(m.folder_map, p) {
                    Some(n) => {
                        assert(id_get(m.folder_map, fs[kp].id) == Some(n));
                        assert(n == ex.folders@[twin_of(file, ex, kp)].id);
                        lemma_folder_match_range(ex.folders@, f.name@, Some(n), 0);
                        assert forall|k: int| 0 <= k < nf implies match #[trigger] id_get(r.folder_map, fs[k].id) {
                            Some(v) => v == ex.folders@[twin_of(file, ex, k)].id,
                            None => remaining(r).contains(k as usize),
                        } by {
                            lemma_id_put_get(m.folder_map, f.id, ex.folders@[t.unwrap()].id, fs[k].id);
                            if k != i {
                                assert(fs[k].id != f.id);
                                if id_get(m.folder_map, fs[k].id) is None {
                                    assert(remaining(m).contains(k as usize));
                                    let q = choose|q: int| 0 <= q < remaining(m).len() && remaining(m)[q] == k as usize;
                                    assert(q > 0);
                                    assert(remaining(r)[q - 1] == k as usize);
                                }
                            }
                        }
                    },
                    None => {
                        assert forall|k: int| 0 <= k < nf implies match #[trigger] id_get(r.folder_map, fs[k].id) {
                            Some(v) => v == ex.folders@[twin_of(file, ex, k)].id,
                            None => remaining(r).contains(k as usize),
                        } by {
                            if id_get(m.folder_map, fs[k].id) is None {
                                assert(remaining(m).contains(k as usize));
                                let q = choose|q: int| 0 <= q < remaining(m).len() && remaining(m)[q] == k as usize;
                                if q == 0 {
                                    assert(remaining(r)[remaining(r).len() - 1] == k as usize);
                                } else {
                                    assert(remaining(r)[q - 1] == k as usize);
                                }
                            }
                        }
                        assert forall|j: int| 0 <= j < r.kept.len() implies #[trigger] r.kept[j] < nf by {
                            if j < m.kept.len() {
                                assert(r.kept[j] == m.kept[j]);
                            }
                        }
                        if r.kept.len() == r.pos {
                            assert forall|j: int| 0 <= j < r.kept.len() implies (fs[#[trigger] r.kept[j] as int].parent_id matches Some(
                                p,
                            ) && id_get(r.folder_map, p) is None) by {
                                if j < m.kept.len() {
                                    assert(r.kept[j] == m.kept[j]);
                                }
                            }
                        }
                    },
                }
            },
        }
    }
}

/// A step that writes nothing, and a finished run that reports no folder,
/// session, group, snippet or rule added and every session skipped.
pub open spec fn adds_nothing(file: ExportFile, st: StepView) -> bool {
    match st {
        StepView::Act(_) => false,
        StepView::Continue => true,
        StepView::Finished(Ok(s)) => s.folders_added == 0 && s.sessions_added == 0 && s.groups_added == 0
            && s.snippets_added == 0 && s.rules_added == 0 && s.sessions_skipped == file.sessions@.len(),
        StepView::Finished(Err(_)) => true,
    }
}

proof fn lemma_reimport_full_step(file: ExportFile, ex: Existing, m: RunModel, a: Option<AnswerView>)
    requires
        all_present(file, ex),
        folders_present(file, ex),
        reimport_inv(file, m),
        folder_inv(file, ex, m),
    ensures
        reimport_inv(file, run_step(file, ex, m, a).0),
        folder_inv(file, ex, run_step(file, ex, m, a).0),
        adds_nothing(file, run_step(file, ex, m, a).1),
{
    lemma_reimport_step(file, ex, m, a);
    if m.phase == Phase::Start || m.phase == Phase::Folders || m.phase == Phase::Orphans {
        lemma_folder_step(file, ex, m, a);
    } else if m.phase == Phase::Sessions && m.sess < file.sessions@.len() {
        assert(session_match(ex.sessions@, file.sessions@[m.sess], 0) is Some);
    }
}

proof fn lemma_reimport_full_steps(file: ExportFile, ex: Existing, m: RunModel, answers: Seq<Option<AnswerView>>)
    requires
        all_present(file, ex),
        folders_present(file, ex),
        reimport_inv(file, m),
        folder_inv(file, ex, m),
    ensures
        forall|j: int|
            0 <= j < run_steps(file, ex, m, answers).1.len() ==> adds_nothing(
                file,
                #[trigger] run_steps(file, ex, m, answers).1[j],
            ),
    decreases answers.len(),
{
    if answers.len() > 0 {
        lemma_reimport_full_step(file, ex, m, answers[0]);
        let (m1, st) = run_step(file, ex, m, answers[0]);
        lemma_reimport_full_steps(file, ex, m1, answers.drop_first());
        let rest = run_steps(file, ex, m1, answers.drop_first()).1;
        let all = seq![st] + rest;
        assert forall|j: int| 0 <= j < all.len() implies adds_nothing(file, #[trigger] all[j]) by {
            if j > 0 {
                assert(all[j] == rest[j - 1]);
            }
        }
    }
}

/// Importing a file a second time adds nothing: when its folder tree
/// already exists (each folder's twin under its parent's twin, every chain
/// of parents ending at the root within the file, ids distinct) and so do
/// its sessions, groups, snippets and rules, then whatever the store
/// answers the run asks for no write at all, and a finished run reports no
/// folder, session, group, snippet or rule added and every session skipped.
pub proof fn lemma_reimport_writes_nothing(file: ExportFile, ex: Existing, m: RunModel, answers: Seq<Option<AnswerView>>)
    requires
        all_present(file, ex),
        folders_present(file, ex),
        file.folders@.len() <= usize::MAX,
        m.phase == Phase::Start,
        m.summary == no_summary(),
        m.folder_map.len() == 0,
        m.added.len() == 0,
        m.needs_via.len() == 0,
    ensures
        forall|j: int|
            0 <= j < run_steps(file, ex, m, answers).1.len() ==> adds_nothing(
                file,
                #[trigger] run_steps(file, ex, m, answers).1[j],
            ),
{
    lemma_reimport_full_steps(file, ex, m, answers);
}

// ---------------------------------------------------------------------------
// A first import, then a second one
// ---------------------------------------------------------------------------

/// Whether file folder `i` reaches the root, within the file, in at most
/// `fuel` steps up its chain of parents.
pub open spec fn rooted(fs: Seq<Folder>, i: int, fuel: nat) -> bool
    decreases fuel,
{
    fuel > 0 && match fs[i].parent_id {
        None => true,
        Some(p) => match crate::canon::find_folder(fs, p, 0) {
            None => false,
            Some(k) => rooted(fs, k, (fuel - 1) as nat),
        },
    }
}

/// A file whose folders form a tree: distinct ids, and every chain of
/// parents ends at the root within the file (no orphan, no cycle).
pub open spec fn folder_tree(file: ExportFile) -> bool {
    let fs = file.folders@;
    &&& forall|i: int, j: int| 0 <= i < j < fs.len() ==> (#[trigger] fs[i]).id != (#[trigger] fs[j]).id
    &&& forall|i: int| 0 <= i < fs.len() ==> #[trigger] rooted(fs, i, fs.len())
}

/// A store that never holds two folders of the same name under the same
/// parent.
pub open spec fn unique_places(ex: Existing) -> bool {
    forall|a: int, b: int|
        0 <= a < b < ex.folders@.len() ==> !((#[trigger] ex.folders@[a]).name@ == (#[trigger] ex.folders@[b]).name@
            && ex.folders@[a].parent_id == ex.folders@[b].parent_id)
}

/// `ex2` holds what `ex1` held, first and in order.
pub open spec fn extends(ex1: Existing, ex2: Existing) -> bool {
    &&& ex1.folders@.len() <= ex2.folders@.len() && ex2.folders@.take(ex1.folders@.len() as int) == ex1.folders@
    &&& ex1.sessions@.len() <= ex2.sessions@.len() && ex2.sessions@.take(ex1.sessions@.len() as int) == ex1.sessions@
    &&& ex1.groups@.len() <= ex2.groups@.len() && ex2.groups@.take(ex1.groups@.len() as int) == ex1.groups@
    &&& ex1.snippets@.len() <= ex2.snippets@.len() && ex2.snippets@.take(ex1.snippets@.len() as int) == ex1.snippets@
    &&& ex1.rules@.len() <= ex2.rules@.len() && ex2.rules@.take(ex1.rules@.len() as int) == ex1.rules@
}

/// Whether the store `ex2` holds what step `st` asked to create, given the
/// answer `ans` it gave: a folder is always created with the id answered;
/// a session, group, snippet or rule answered with an id is held.
pub open spec fn recorded(ex2: Existing, st: StepView, ans: Option<AnswerView>) -> bool {
    match st {
        StepView::Act(ActionView::CreateFolder { name, parent }) => match ans {
            Some(AnswerView::Id(id)) => exists|q: int|
                0 <= q < ex2.folders@.len() && (#[trigger] ex2.folders@[q]).id == id && ex2.folders@[q].name@ == name
                    && ex2.folders@[q].parent_id == parent,
            _ => false,
        },
        StepView::Act(ActionView::CreateSession { folder, name, protocol, host, port, username, options_json, auth_method }) =>
            ans matches Some(AnswerView::Id(_)) ==> exists|q: int|
            0 <= q < ex2.sessions@.len() && (#[trigger] ex2.sessions@[q]).name@ == name && ex2.sessions@[q].protocol@
                == protocol && opt_str(ex2.sessions@[q].host) == host && ex2.sessions@[q].port == port,
        StepView::Act(ActionView::CreateGroup { name }) => ans matches Some(AnswerView::Id(_)) ==> group_exists(
            ex2.groups@,
            name,
        ),
        StepView::Act(ActionView::CreateSnippet { name, content, platform, color }) => ans matches Some(
            AnswerView::Id(_),
        ) ==> exists|q: int|
            0 <= q < ex2.snippets@.len() && (#[trigger] ex2.snippets@[q]).name@ == name && opt_str(
                ex2.snippets@[q].platform,
            ) == platform,
        StepView::Act(ActionView::CreateRule { name, pattern, is_regex, fg_color, bg_color, bold, underline }) =>
            ans matches Some(AnswerView::Id(_)) ==> exists|q: int|
            0 <= q < ex2.rules@.len() && (#[trigger] ex2.rules@[q]).pattern@ == pattern && ex2.rules@[q].is_regex
                == is_regex,
        _ => true,
    }
}

/// The store kept every step's request: each step but the last is
/// recorded with the answer that followed it.
pub open spec fn store_followed(ex2: Existing, steps: Seq<StepView>, answers: Seq<Option<AnswerView>>) -> bool {
    forall|j: int| 0 <= j < steps.len() - 1 && j + 1 < answers.len() ==> recorded(ex2, #[trigger] steps[j], answers[j + 1])
}

/// The parent a folder is created under: `None` while its parent is not
/// mapped, `Some(None)` at the root.
pub open spec fn pmap(fs: Seq<Folder>, map: Seq<(i64, i64)>, i: int) -> Option<Option<i64>> {
    match fs[i].parent_id {
        None => Some(None),
        Some(p) => match id_get(map, p) {
            Some(n) => Some(Some(n)),
            None => None,
        },
    }
}

/// Whether the store holds folder `id` named `name` under `parent`.
pub open spec fn placed(ex2: Existing, id: i64, name: Seq<char>, parent: Option<i64>) -> bool {
    exists|q: int|
        0 <= q < ex2.folders@.len() && (#[trigger] ex2.folders@[q]).id == id && ex2.folders@[q].name@ == name
            && ex2.folders@[q].parent_id == parent
}

/// The session the run emits for file session `s` with folder map `fm`.
pub open spec fn create_session_view(fm: Seq<(i64, i64)>, s: SavedSession) -> StepView {
    StepView::Act(
        ActionView::CreateSession {
            folder: match s.folder_id {
                Some(f) => id_get(fm, f),
                None => None,
            },
            name: s.name@,
            protocol: s.protocol@,
            host: opt_str(s.host),
            port: s.port,
            username: opt_str(s.username),
            options_json: s.options_json@,
            auth_method: opt_str(s.auth_method),
        },
    )
}

/// Whether file session `s` has a twin in the store.
pub open spec fn session_held(ex2: Existing, s: SavedSession) -> bool {
    session_match(ex2.sessions@, s, 0) is Some
}

spec fn folders_inv1(file: ExportFile, ex1: Existing, ex2: Existing, m: RunModel, prev: StepView) -> bool {
    let fs = file.folders@;
    let nf = fs.len();
    &&& nf <= usize::MAX
    &&& 0 <= m.pos <= m.pending.len()
    &&& m.kept.len() <= m.pos
    &&& forall|j: int| 0 <= j < remaining(m).len() ==> (#[trigger] remaining(m)[j]) < nf
    &&& forall|j: int, k: int| 0 <= j < k < remaining(m).len() ==> remaining(m)[j] != remaining(m)[k]
    &&& forall|j: int| 0 <= j < remaining(m).len() ==> id_get(m.folder_map, fs[#[trigger] remaining(m)[j] as int].id) is None
    &&& forall|k: int|
        0 <= k < nf ==> (id_get(m.folder_map, #[trigger] fs[k].id) is Some || remaining(m).contains(k as usize))
    &&& forall|k: int|
        0 <= k < nf ==> (#[trigger] id_get(m.folder_map, fs[k].id) matches Some(v) ==> pmap(fs, m.folder_map, k) is Some
            && placed(ex2, v, fs[k].name@, pmap(fs, m.folder_map, k).unwrap()))
    &&& m.kept.len() == m.pos ==> forall|j: int|
        0 <= j < m.kept.len() ==> (fs[#[trigger] m.kept[j] as int].parent_id matches Some(p) && id_get(m.folder_map, p)
            is None)
    &&& m.awaiting ==> {
        &&& m.pos < m.pending.len()
        &&& pmap(fs, m.folder_map, m.pending[m.pos] as int) is Some
        &&& prev == StepView::Act(
            ActionView::CreateFolder {
                name: fs[m.pending[m.pos] as int].name@,
                parent: pmap(fs, m.folder_map, m.pending[m.pos] as int).unwrap(),
            },
        )
    }
}

/// What a run has established at each point of a first import.
spec fn run1_inv(file: ExportFile, ex1: Existing, ex2: Existing, m: RunModel, prev: StepView) -> bool {
    &&& file.folders@.len() <= usize::MAX
    &&& m.phase == Phase::Start ==> m.folder_map.len() == 0
    &&& m.phase == Phase::Folders ==> folders_inv1(file, ex1, ex2, m, prev)
    &&& m.phase == Phase::Orphans ==> m.pending.len() == 0 && m.pos >= 0 && !m.awaiting && folders_present(file, ex2)
    &&& m.phase == Phase::Sessions ==> {
        &&& folders_present(file, ex2)
        &&& 0 <= m.sess
        &&& 0 <= m.stage <= 3
        &&& forall|k: int| 0 <= k < m.sess && k < file.sessions@.len() ==> session_held(ex2, #[trigger] file.sessions@[k])
        &&& m.stage == 1 ==> m.sess < file.sessions@.len() && prev == create_session_view(m.folder_map, file.sessions@[m.sess])
        &&& (m.stage == 2 || m.stage == 3) ==> m.sess < file.sessions@.len() && session_held(ex2, file.sessions@[m.sess])
    }
    &&& m.phase == Phase::Rest ==> {
        &&& folders_present(file, ex2)
        &&& forall|k: int| 0 <= k < file.sessions@.len() ==> session_held(ex2, #[trigger] file.sessions@[k])
        &&& 0 <= m.rest_pos
        &&& m.stage == 1 ==> m.rest_pos < m.rest.len() && prev == StepView::Act(rest_action(file, m.rest[m.rest_pos]))
        &&& (m.stage == 0 || m.stage == 1 || m.stage == 2)
        &&& m.stage == 2 ==> m.rest_pos < m.rest.len() && m.rest[m.rest_pos] is Group
        &&& forall|e: int|
            0 <= e < file.broadcast_groups@.len() ==> group_exists(ex2.groups@, (#[trigger] file.broadcast_groups@[e]).name@)
                || exists|q: int|
                m.rest_pos <= q < m.rest.len() && is_group_item(#[trigger] m.rest[q], e) && (q == m.rest_pos ==> m.stage
                    <= 1)
        &&& forall|e: int|
            0 <= e < file.snippets@.len() ==> snippet_held(ex2, #[trigger] file.snippets@[e]) || exists|q: int|
                m.rest_pos <= q < m.rest.len() && (#[trigger] m.rest[q]) == (RestView::Snippet { entry: e })
        &&& forall|e: int|
            0 <= e < file.highlight_rules@.len() ==> rule_held(ex2, #[trigger] file.highlight_rules@[e]) || exists|q: int|
                m.rest_pos <= q < m.rest.len() && (#[trigger] m.rest[q]) == (RestView::Rule { entry: e })
    }
}

/// Whether a planned write creates group `e` of the file.
pub open spec fn is_group_item(it: RestView, e: int) -> bool {
    match it {
        RestView::Group { entry, members } => entry == e,
        _ => false,
    }
}

/// Whether a snippet of this name and platform is held.
pub open spec fn snippet_held(ex2: Existing, sn: Snippet) -> bool {
    snippet_exists(ex2.snippets@, sn)
}

/// Whether a rule of this pattern and kind is held.
pub open spec fn rule_held(ex2: Existing, r: HighlightRule) -> bool {
    rule_exists(ex2.rules@, r)
}

proof fn lemma_session_match_found(ex: Seq<SavedSession>, s: SavedSession, from: int, q: int)
    requires
        0 <= from <= q < ex.len(),
        same_session(ex[q], s),
    ensures
        session_match(ex, s, from) is Some,
    decreases q - from,
{
    if !same_session(ex[from], s) {
        lemma_session_match_found(ex, s, from + 1, q);
    }
}

proof fn lemma_session_match_char(ex: Seq<SavedSession>, s: SavedSession, from: int)
    requires
        0 <= from,
    ensures
        session_match(ex, s, from) matches Some(j) ==> from <= j < ex.len() && same_session(ex[j], s),
    decreases ex.len() - from,
{
    if from < ex.len() && !same_session(ex[from], s) {
        lemma_session_match_char(ex, s, from + 1);
    }
}

proof fn lemma_session_kept(ex1: Existing, ex2: Existing, s: SavedSession)
    requires
        extends(ex1, ex2),
        session_match(ex1.sessions@, s, 0) is Some,
    ensures
        session_held(ex2, s),
{
    lemma_session_match_char(ex1.sessions@, s, 0);
    let j = session_match(ex1.sessions@, s, 0).unwrap();
    assert(ex2.sessions@.take(ex1.sessions@.len() as int)[j] == ex2.sessions@[j]);
    lemma_session_match_found(ex2.sessions@, s, 0, j);
}

proof fn lemma_folder_match_char(ex: Seq<Folder>, name: Seq<char>, parent: Option<i64>, from: int)
    requires
        0 <= from,
    ensures
        folder_match(ex, name, parent, from) matches Some(j) ==> from <= j < ex.len() && ex[j].name@ == name
            && ex[j].parent_id == parent,
    decreases ex.len() - from,
{
    if from < ex.len() && !(ex[from].name@ == name && ex[from].parent_id == parent) {
        lemma_folder_match_char(ex, name, parent, from + 1);
    }
}

proof fn lemma_folder_match_unique(ex2: Existing, name: Seq<char>, parent: Option<i64>, from: int, q: int)
    requires
        unique_places(ex2),
        0 <= from <= q < ex2.folders@.len(),
        ex2.folders@[q].name@ == name && ex2.folders@[q].parent_id == parent,
    ensures
        folder_match(ex2.folders@, name, parent, from) == Some(q),
    decreases q - from,
{
    if from < q {
        assert(!(ex2.folders@[from].name@ == name && ex2.folders@[from].parent_id == parent)) by {
            if ex2.folders@[from].name@ == name && ex2.folders@[from].parent_id == parent {
                assert(ex2.folders@[from].name@ == ex2.folders@[q].name@);
            }
        }
        lemma_folder_match_unique(ex2, name, parent, from + 1, q);
    }
}

proof fn lemma_reuse_placed(ex1: Existing, ex2: Existing, name: Seq<char>, parent: Option<i64>)
    requires
        extends(ex1, ex2),
        folder_match(ex1.folders@, name, parent, 0) is Some,
    ensures
        placed(ex2, ex1.folders@[folder_match(ex1.folders@, name, parent, 0).unwrap()].id, name, parent),
{
    lemma_folder_match_char(ex1.folders@, name, parent, 0);
    let j = folder_match(ex1.folders@, name, parent, 0).unwrap();
    assert(ex2.folders@.take(ex1.folders@.len() as int)[j] == ex2.folders@[j]);
    assert(ex2.folders@[j] == ex1.folders@[j]);
}

/// At the end of the folder phase of a first import every folder is held
/// where the run put it, so each has its twin.
proof fn lemma_twin_from_map(file: ExportFile, ex2: Existing, map: Seq<(i64, i64)>, k: int, d: nat)
    requires
        unique_places(ex2),
        folder_tree(file),
        0 <= k < file.folders@.len(),
        rooted(file.folders@, k, d),
        forall|x: int|
            0 <= x < file.folders@.len() ==> (#[trigger] id_get(map, file.folders@[x].id)) is Some && pmap(
                file.folders@,
                map,
                x,
            ) is Some && placed(
                ex2,
                id_get(map, file.folders@[x].id).unwrap(),
                file.folders@[x].name@,
                pmap(file.folders@, map, x).unwrap(),
            ),
    ensures
        twin(file.folders@, ex2.folders@, k, d) matches Some(t) && 0 <= t < ex2.folders@.len() && ex2.folders@[t].id
            == id_get(map, file.folders@[k].id).unwrap(),
    decreases d,
{
    let fs = file.folders@;
    assert(id_get(map, fs[k].id) is Some);
    let v = id_get(map, fs[k].id).unwrap();
    let q = choose|q: int|
        0 <= q < ex2.folders@.len() && (#[trigger] ex2.folders@[q]).id == v && ex2.folders@[q].name@ == fs[k].name@
            && ex2.folders@[q].parent_id == pmap(fs, map, k).unwrap();
    match fs[k].parent_id {
        None => {
            lemma_folder_match_unique(ex2, fs[k].name@, None, 0, q);
        },
        Some(p) => {
            lemma_find_folder_range(fs, p, 0);
            let kp = crate::canon::find_folder(fs, p, 0).unwrap();
            lemma_twin_from_map(file, ex2, map, kp, (d - 1) as nat);
            assert(id_get(map, fs[kp].id) is Some);
            lemma_folder_match_unique(ex2, fs[k].name@, pmap(fs, map, k).unwrap(), 0, q);
        },
    }
}

proof fn lemma_rooted_monotone(fs: Seq<Folder>, i: int, d: nat, e: nat)
    requires
        d <= e,
        rooted(fs, i, d),
    ensures
        rooted(fs, i, e),
    decreases d,
{
    match fs[i].parent_id {
        None => {},
        Some(p) => {
            let k = crate::canon::find_folder(fs, p, 0).unwrap();
            lemma_rooted_monotone(fs, k, (d - 1) as nat, (e - 1) as nat);
        },
    }
}

proof fn lemma_stall_unrooted(file: ExportFile, ex1: Existing, ex2: Existing, m: RunModel, prev: StepView, d: nat)
    requires
        folders_inv1(file, ex1, ex2, m, prev),
        m.pos >= m.pending.len(),
        m.kept.len() == m.pending.len(),
    ensures
        forall|j: int| 0 <= j < m.kept.len() ==> !rooted(file.folders@, #[trigger] m.kept[j] as int, d),
    decreases d,
{
    let fs = file.folders@;
    if d > 0 {
        lemma_stall_unrooted(file, ex1, ex2, m, prev, (d - 1) as nat);
        assert(m.pending.skip(m.pos) =~= Seq::<usize>::empty());
        assert(remaining(m) =~= m.kept);
        assert forall|j: int| 0 <= j < m.kept.len() implies !rooted(fs, #[trigger] m.kept[j] as int, d) by {
            let k = m.kept[j] as int;
            assert(remaining(m)[j] == m.kept[j]);
            let p = fs[k].parent_id.unwrap();
            lemma_find_folder_range(fs, p, 0);
            match crate::canon::find_folder(fs, p, 0) {
                None => {},
                Some(kp) => {
                    assert(id_get(m.folder_map, fs[kp].id) is None);
                    assert(remaining(m).contains(kp as usize));
                    let q = choose|q: int| 0 <= q < remaining(m).len() && remaining(m)[q] == kp as usize;
                    assert(!rooted(fs, m.kept[q] as int, (d - 1) as nat));
                },
            }
        }
    }
}

proof fn lemma_folders_done(file: ExportFile, ex1: Existing, ex2: Existing, m: RunModel, prev: StepView)
    requires
        folder_tree(file),
        unique_places(ex2),
        folders_inv1(file, ex1, ex2, m, prev),
        remaining(m).len() == 0,
    ensures
        folders_present(file, ex2),
{
    let fs = file.folders@;
    assert forall|x: int|
        0 <= x < fs.len() implies (#[trigger] id_get(m.folder_map, fs[x].id)) is Some && pmap(fs, m.folder_map, x) is Some
            && placed(ex2, id_get(m.folder_map, fs[x].id).unwrap(), fs[x].name@, pmap(fs, m.folder_map, x).unwrap()) by {
        if id_get(m.folder_map, fs[x].id) is None {
            assert(remaining(m).contains(x as usize));
        }
    }
    assert forall|i: int| 0 <= i < fs.len() implies (#[trigger] twin(fs, ex2.folders@, i, fs.len())) is Some by {
        lemma_twin_from_map(file, ex2, m.folder_map, i, fs.len());
    }
}

proof fn lemma_remaining_split(m: RunModel)
    requires
        0 <= m.pos < m.pending.len(),
    ensures
        remaining(m) == seq![m.pending[m.pos]] + remaining(RunModel { pos: m.pos + 1, ..m }),
{
    assert(m.pending.skip(m.pos) =~= seq![m.pending[m.pos]] + m.pending.skip(m.pos + 1));
    assert(remaining(m) =~= seq![m.pending[m.pos]] + remaining(RunModel { pos: m.pos + 1, ..m }));
}

proof fn lemma_map_one(file: ExportFile, ex1: Existing, ex2: Existing, m: RunModel, prev: StepView, v: i64, m2: RunModel, st: StepView)
    requires
        folder_tree(file),
        folders_inv1(file, ex1, ex2, m, prev),
        0 <= m.pos < m.pending.len(),
        pmap(file.folders@, m.folder_map, m.pending[m.pos] as int) is Some,
        placed(
            ex2,
            v,
            file.folders@[m.pending[m.pos] as int].name@,
            pmap(file.folders@, m.folder_map, m.pending[m.pos] as int).unwrap(),
        ),
        m2.folder_map == id_put(m.folder_map, file.folders@[m.pending[m.pos] as int].id, v),
        m2.pending == m.pending,
        m2.pos == m.pos + 1,
        m2.kept == m.kept,
        !m2.awaiting,
    ensures
        folders_inv1(file, ex1, ex2, m2, st),
{
    let fs = file.folders@;
    let nf = fs.len();
    let i = m.pending[m.pos] as int;
    let fid = fs[i].id;
    lemma_remaining_split(m);
    assert(remaining(m2) == remaining(RunModel { pos: m.pos + 1, ..m }));
    let r2 = remaining(m2);
    assert(remaining(m)[0] == i as usize);
    assert(id_get(m.folder_map, fid) is None);
    assert forall|j: int| 0 <= j < r2.len() implies (#[trigger] r2[j]) < nf by {
        assert(r2[j] == remaining(m)[j + 1]);
    }
    assert forall|j: int, k: int| 0 <= j < k < r2.len() implies r2[j] != r2[k] by {
        assert(r2[j] == remaining(m)[j + 1] && r2[k] == remaining(m)[k + 1]);
    }
    assert forall|j: int| 0 <= j < r2.len() implies id_get(m2.folder_map, fs[#[trigger] r2[j] as int].id) is None by {
        assert(r2[j] == remaining(m)[j + 1]);
        assert(remaining(m)[j + 1] != remaining(m)[0]);
        let k = r2[j] as int;
        assert(fs[k].id != fid);
        lemma_id_put_get(m.folder_map, fid, v, fs[k].id);
    }
    assert forall|k: int| 0 <= k < nf implies (id_get(m2.folder_map, #[trigger] fs[k].id) is Some || r2.contains(
        k as usize,
    )) by {
        lemma_id_put_get(m.folder_map, fid, v, fs[k].id);
        if k != i {
            assert(fs[k].id != fid);
            if id_get(m.folder_map, fs[k].id) is None {
                assert(remaining(m).contains(k as usize));
                let q = choose|q: int| 0 <= q < remaining(m).len() && remaining(m)[q] == k as usize;
                assert(q != 0);
                assert(r2[q - 1] == k as usize);
            }
        }
    }
    assert forall|k: int|
        0 <= k < nf implies (#[trigger] id_get(m2.folder_map, fs[k].id) matches Some(w) ==> pmap(fs, m2.folder_map, k) is Some
            && placed(ex2, w, fs[k].name@, pmap(fs, m2.folder_map, k).unwrap())) by {
        lemma_id_put_get(m.folder_map, fid, v, fs[k].id);
        match fs[k].parent_id {
            Some(p) => {
                lemma_id_put_get(m.folder_map, fid, v, p);
            },
            None => {},
        }
        if k == i {
            match fs[k].parent_id {
                Some(p) => {
                    assert(id_get(m.folder_map, p) is Some);
                    assert(p != fid);
                },
                None => {},
            }
        } else {
            assert(fs[k].id != fid);
            if id_get(m.folder_map, fs[k].id) is Some {
                match fs[k].parent_id {
                    Some(p) => {
                        assert(id_get(m.folder_map, p) is Some);
                        assert(p != fid);
                    },
                    None => {},
                }
            }
        }
    }
}

proof fn lemma_run1_folders_step(file: ExportFile, ex1: Existing, ex2: Existing, m: RunModel, prev: StepView, a: Option<AnswerView>)
    requires
        folder_tree(file),
        unique_places(ex2),
        extends(ex1, ex2),
        m.phase == Phase::Folders,
        folders_inv1(file, ex1, ex2, m, prev),
        recorded(ex2, prev, a),
    ensures
        run_step(file, ex1, m, a).0.phase == Phase::Folders ==> folders_inv1(
            file,
            ex1,
            ex2,
            run_step(file, ex1, m, a).0,
            run_step(file, ex1, m, a).1,
        ),
        run_step(file, ex1, m, a).0.phase == Phase::Orphans ==> run_step(file, ex1, m, a).0.pending.len() == 0
            && !run_step(file, ex1, m, a).0.awaiting && folders_present(file, ex2),
        run_step(file, ex1, m, a).0.phase == Phase::Folders || run_step(file, ex1, m, a).0.phase == Phase::Orphans,
        !(run_step(file, ex1, m, a).1 is Finished),
{
    let fs = file.folders@;
    let nf = fs.len();
    let (m2, st) = run_step(file, ex1, m, a);
    if m.awaiting {
        let i = m.pending[m.pos] as int;
        lemma_remaining_split(m);
        assert(remaining(m)[0] == i as usize);
        let id = answered_id(a).unwrap();
        lemma_map_one(file, ex1, ex2, m, prev, id, m2, st);
    } else if m.pos >= m.pending.len() {
        if m.kept.len() == m.pending.len() {
            lemma_stall_unrooted(file, ex1, ex2, m, prev, nf);
            if m.kept.len() > 0 {
                assert(remaining(m)[0] == m.kept[0]) by {
                    assert(m.pending.skip(m.pos) =~= Seq::<usize>::empty());
                }
                assert(rooted(fs, m.kept[0] as int, nf));
            }
            assert(remaining(m) =~= Seq::<usize>::empty()) by {
                assert(m.pending.skip(m.pos) =~= Seq::<usize>::empty());
            }
            lemma_folders_done(file, ex1, ex2, m, prev);
        } else {
            assert(m.pending.skip(m.pos) =~= Seq::<usize>::empty());
            assert(remaining(m) =~= m.kept);
            assert(remaining(m2) =~= m.kept);
        }
    } else {
        let i = m.pending[m.pos] as int;
        lemma_remaining_split(m);
        assert(remaining(m)[0] == i as usize);
        match pmap(fs, m.folder_map, i) {
            None => {
                let rest = remaining(RunModel { pos: m.pos + 1, ..m });
                assert(remaining(m2) =~= m.pending.skip(m.pos + 1) + m.kept.push(i as usize));
                assert(remaining(m2) =~= rest.push(i as usize));
                let r2 = remaining(m2);
                assert forall|j: int| 0 <= j < r2.len() implies (#[trigger] r2[j]) < nf by {
                    if j < rest.len() {
                        assert(r2[j] == remaining(m)[j + 1]);
                    }
                }
                assert forall|j: int, k: int| 0 <= j < k < r2.len() implies r2[j] != r2[k] by {
                    if k < rest.len() {
                        assert(r2[j] == remaining(m)[j + 1] && r2[k] == remaining(m)[k + 1]);
                    } else {
                        assert(r2[j] == remaining(m)[j + 1] && r2[k] == remaining(m)[0]);
                    }
                }
                assert forall|j: int| 0 <= j < r2.len() implies id_get(m2.folder_map, fs[#[trigger] r2[j] as int].id) is None by {
                    if j < rest.len() {
                        assert(r2[j] == remaining(m)[j + 1]);
                    } else {
                        assert(r2[j] == remaining(m)[0]);
                    }
                }
                assert forall|k: int| 0 <= k < nf implies (id_get(m2.folder_map, #[trigger] fs[k].id) is Some || r2.contains(
                    k as usize,
                )) by {
                    if id_get(m.folder_map, fs[k].id) is None {
                        assert(remaining(m).contains(k as usize));
                        let q = choose|q: int| 0 <= q < remaining(m).len() && remaining(m)[q] == k as usize;
                        if q == 0 {
                            assert(r2[r2.len() - 1] == k as usize);
                        } else {
                            assert(r2[q - 1] == k as usize);
                        }
                    }
                }
                if m2.kept.len() == m2.pos {
                    assert forall|j: int| 0 <= j < m2.kept.len() implies (fs[#[trigger] m2.kept[j] as int].parent_id matches Some(
                        p,
                    ) && id_get(m2.folder_map, p) is None) by {
                        if j < m.kept.len() {
                            assert(m2.kept[j] == m.kept[j]);
                        }
                    }
                }
            },
            Some(pn) => {
                match folder_match(ex1.folders@, fs[i].name@, pn, 0) {
                    Some(j) => {
                        lemma_reuse_placed(ex1, ex2, fs[i].name@, pn);
                        lemma_map_one(file, ex1, ex2, m, prev, ex1.folders@[j].id, m2, st);
                    },
                    None => {},
                }
            },
        }
    }
}

proof fn lemma_group_items_cover(gs: Seq<BroadcastGroup>, ex: Seq<BroadcastGroup>, smap: Seq<(i64, i64)>, k: int)
    requires
        0 <= k,
    ensures
        forall|e: int|
            k <= e < gs.len() && !group_exists(ex, (#[trigger] gs[e]).name@) ==> exists|q: int|
                0 <= q < group_items(gs, ex, smap, k).0.len() && is_group_item(group_items(gs, ex, smap, k).0[q], e),
    decreases gs.len() - k,
{
    if k < gs.len() {
        lemma_group_items_cover(gs, ex, smap, k + 1);
        let rest = group_items(gs, ex, smap, k + 1).0;
        let all = group_items(gs, ex, smap, k).0;
        assert forall|e: int| k <= e < gs.len() && !group_exists(ex, (#[trigger] gs[e]).name@) implies exists|q: int|
            0 <= q < all.len() && is_group_item(all[q], e) by {
            if e == k {
                assert(is_group_item(all[0], e));
            } else {
                let q = choose|q: int| 0 <= q < rest.len() && is_group_item(rest[q], e);
                if group_exists(ex, gs[k].name@) {
                    assert(all[q] == rest[q]);
                } else {
                    assert(all[q + 1] == rest[q]);
                }
            }
        }
    }
}

proof fn lemma_snippet_items_cover(sn: Seq<Snippet>, ex: Seq<Snippet>, k: int)
    requires
        0 <= k,
    ensures
        forall|e: int|
            k <= e < sn.len() && !snippet_exists(ex, #[trigger] sn[e]) ==> exists|q: int|
                0 <= q < snippet_items(sn, ex, k).len() && snippet_items(sn, ex, k)[q] == (RestView::Snippet { entry: e }),
    decreases sn.len() - k,
{
    if k < sn.len() {
        lemma_snippet_items_cover(sn, ex, k + 1);
        let rest = snippet_items(sn, ex, k + 1);
        let head: Seq<RestView> = if snippet_exists(ex, sn[k]) {
            Seq::empty()
        } else {
            seq![RestView::Snippet { entry: k }]
        };
        let all = head + rest;
        assert(all == snippet_items(sn, ex, k));
        assert forall|e: int| k <= e < sn.len() && !snippet_exists(ex, #[trigger] sn[e]) implies exists|q: int|
            0 <= q < all.len() && all[q] == (RestView::Snippet { entry: e }) by {
            if e == k {
                assert(all[0] == (RestView::Snippet { entry: e }));
            } else {
                let q = choose|q: int| 0 <= q < rest.len() && rest[q] == (RestView::Snippet { entry: e });
                assert(all[q + head.len()] == rest[q]);
            }
        }
    }
}

proof fn lemma_rule_items_cover(rs: Seq<HighlightRule>, ex: Seq<HighlightRule>, k: int)
    requires
        0 <= k,
    ensures
        forall|e: int|
            k <= e < rs.len() && !rule_exists(ex, #[trigger] rs[e]) ==> exists|q: int|
                0 <= q < rule_items(rs, ex, k).len() && rule_items(rs, ex, k)[q] == (RestView::Rule { entry: e }),
    decreases rs.len() - k,
{
    if k < rs.len() {
        lemma_rule_items_cover(rs, ex, k + 1);
        let rest = rule_items(rs, ex, k + 1);
        let head: Seq<RestView> = if rule_exists(ex, rs[k]) {
            Seq::empty()
        } else {
            seq![RestView::Rule { entry: k }]
        };
        let all = head + rest;
        assert(all == rule_items(rs, ex, k));
        assert forall|e: int| k <= e < rs.len() && !rule_exists(ex, #[trigger] rs[e]) implies exists|q: int|
            0 <= q < all.len() && all[q] == (RestView::Rule { entry: e }) by {
            if e == k {
                assert(all[0] == (RestView::Rule { entry: e }));
            } else {
                let q = choose|q: int| 0 <= q < rest.len() && rest[q] == (RestView::Rule { entry: e });
                assert(all[q + head.len()] == rest[q]);
            }
        }
    }
}

/// Entering the planned writes of a first import: each group, snippet and
/// rule of the file is held already or planned.
proof fn lemma_run1_enter_rest(file: ExportFile, ex1: Existing, ex2: Existing, m: RunModel)
    requires
        extends(ex1, ex2),
    ensures
        ({
            let rest = rest_plan(file, ex1, m.session_map, m.added, m.needs_via).0;
            &&& forall|e: int|
                0 <= e < file.broadcast_groups@.len() ==> group_exists(ex2.groups@, (#[trigger] file.broadcast_groups@[e]).name@)
                    || exists|q: int| 0 <= q < rest.len() && is_group_item(#[trigger] rest[q], e)
            &&& forall|e: int|
                0 <= e < file.snippets@.len() ==> snippet_held(ex2, #[trigger] file.snippets@[e]) || exists|q: int|
                    0 <= q < rest.len() && (#[trigger] rest[q]) == (RestView::Snippet { entry: e })
            &&& forall|e: int|
                0 <= e < file.highlight_rules@.len() ==> rule_held(ex2, #[trigger] file.highlight_rules@[e]) || exists|q: int|
                    0 <= q < rest.len() && (#[trigger] rest[q]) == (RestView::Rule { entry: e })
        }),
{
    let f = forward_items(file.session_forwards@, m.session_map, m.added, 0);
    let v = via_items(m.session_map, m.needs_via, 0).0;
    let g = group_items(file.broadcast_groups@, ex1.groups@, m.session_map, 0).0;
    let sn = snippet_items(file.snippets@, ex1.snippets@, 0);
    let ru = rule_items(file.highlight_rules@, ex1.rules@, 0);
    let rest = rest_plan(file, ex1, m.session_map, m.added, m.needs_via).0;
    assert(rest == f + v + g + sn + ru);
    lemma_group_items_cover(file.broadcast_groups@, ex1.groups@, m.session_map, 0);
    lemma_snippet_items_cover(file.snippets@, ex1.snippets@, 0);
    lemma_rule_items_cover(file.highlight_rules@, ex1.rules@, 0);
    assert forall|e: int|
        0 <= e < file.broadcast_groups@.len() implies group_exists(ex2.groups@, (#[trigger] file.broadcast_groups@[e]).name@)
            || exists|q: int| 0 <= q < rest.len() && is_group_item(#[trigger] rest[q], e) by {
        let name = file.broadcast_groups@[e].name@;
        if group_exists(ex1.groups@, name) {
            let j = choose|j: int| 0 <= j < ex1.groups@.len() && (#[trigger] ex1.groups@[j]).name@ == name;
            assert(ex2.groups@.take(ex1.groups@.len() as int)[j] == ex2.groups@[j]);
            assert(ex2.groups@[j] == ex1.groups@[j]);
        } else {
            let q = choose|q: int| 0 <= q < g.len() && is_group_item(g[q], e);
            assert(rest[f.len() + v.len() + q] == g[q]);
        }
    }
    assert forall|e: int|
        0 <= e < file.snippets@.len() implies snippet_held(ex2, #[trigger] file.snippets@[e]) || exists|q: int|
            0 <= q < rest.len() && (#[trigger] rest[q]) == (RestView::Snippet { entry: e }) by {
        let x = file.snippets@[e];
        if snippet_exists(ex1.snippets@, x) {
            let j = choose|j: int|
                0 <= j < ex1.snippets@.len() && (#[trigger] ex1.snippets@[j]).name@ == x.name@ && opt_str(
                    ex1.snippets@[j].platform,
                ) == opt_str(x.platform);
            assert(ex2.snippets@.take(ex1.snippets@.len() as int)[j] == ex2.snippets@[j]);
            assert(ex2.snippets@[j] == ex1.snippets@[j]);
        } else {
            let q = choose|q: int| 0 <= q < sn.len() && sn[q] == (RestView::Snippet { entry: e });
            assert(rest[f.len() + v.len() + g.len() + q] == sn[q]);
        }
    }
    assert forall|e: int|
        0 <= e < file.highlight_rules@.len() implies rule_held(ex2, #[trigger] file.highlight_rules@[e]) || exists|q: int|
            0 <= q < rest.len() && (#[trigger] rest[q]) == (RestView::Rule { entry: e }) by {
        let x = file.highlight_rules@[e];
        if rule_exists(ex1.rules@, x) {
            let j = choose|j: int|
                0 <= j < ex1.rules@.len() && (#[trigger] ex1.rules@[j]).pattern@ == x.pattern@ && ex1.rules@[j].is_regex
                    == x.is_regex;
            assert(ex2.rules@.take(ex1.rules@.len() as int)[j] == ex2.rules@[j]);
            assert(ex2.rules@[j] == ex1.rules@[j]);
        } else {
            let q = choose|q: int| 0 <= q < ru.len() && ru[q] == (RestView::Rule { entry: e });
            assert(rest[f.len() + v.len() + g.len() + sn.len() + q] == ru[q]);
        }
    }
}

/// What a finished first import leaves in the store: everything of the file.
pub open spec fn import_held(file: ExportFile, ex2: Existing) -> bool {
    all_present(file, ex2) && folders_present(file, ex2)
}

proof fn lemma_run1_step(file: ExportFile, ex1: Existing, ex2: Existing, m: RunModel, prev: StepView, a: Option<AnswerView>)
    requires
        folder_tree(file),
        unique_places(ex2),
        extends(ex1, ex2),
        run1_inv(file, ex1, ex2, m, prev),
        recorded(ex2, prev, a),
    ensures
        run1_inv(file, ex1, ex2, run_step(file, ex1, m, a).0, run_step(file, ex1, m, a).1),
        run_step(file, ex1, m, a).1 matches StepView::Finished(Ok(_)) ==> import_held(file, ex2),
{
    let fs = file.folders@;
    let nf = fs.len();
    let (m2, st) = run_step(file, ex1, m, a);
    if m.phase == Phase::Start {
        if file.zapx_export <= 1 {
            let r = remaining(m2);
            assert(r =~= Seq::new(nf, |i: int| i as usize));
            assert forall|k: int| 0 <= k < nf implies id_get(m2.folder_map, fs[k].id) is None by {
                assert(id_index(m2.folder_map, fs[k].id, 0) is None);
            }
            assert forall|k: int| 0 <= k < nf implies (id_get(m2.folder_map, #[trigger] fs[k].id) is Some || r.contains(
                k as usize,
            )) by {
                assert(r[k] == k as usize);
            }
            assert forall|j: int| 0 <= j < r.len() implies id_get(m2.folder_map, fs[#[trigger] r[j] as int].id) is None by {
                assert(id_index(m2.folder_map, fs[r[j] as int].id, 0) is None);
            }
        }
    } else if m.phase == Phase::Folders {
        lemma_run1_folders_step(file, ex1, ex2, m, prev, a);
    } else if m.phase == Phase::Orphans {
    } else if m.phase == Phase::Sessions {
        if m.stage == 0 {
            if m.sess >= file.sessions@.len() {
                lemma_run1_enter_rest(file, ex1, ex2, m);
            } else {
                let sv = file.sessions@[m.sess];
                match session_match(ex1.sessions@, sv, 0) {
                    Some(j) => {
                        lemma_session_kept(ex1, ex2, sv);
                    },
                    None => {},
                }
            }
        } else if m.stage == 1 {
            let sv = file.sessions@[m.sess];
            if answered_id(a) is Some {
                let q = choose|q: int|
                    0 <= q < ex2.sessions@.len() && (#[trigger] ex2.sessions@[q]).name@ == sv.name@
                        && ex2.sessions@[q].protocol@ == sv.protocol@ && opt_str(ex2.sessions@[q].host) == opt_str(sv.host)
                        && ex2.sessions@[q].port == sv.port;
                lemma_session_match_found(ex2.sessions@, sv, 0, q);
            }
        }
        if m2.phase == Phase::Sessions {
            assert forall|k: int| 0 <= k < m2.sess && k < file.sessions@.len() implies session_held(
                ex2,
                #[trigger] file.sessions@[k],
            ) by {
                if k < m.sess {
                } else {
                    assert(k == m.sess);
                }
            }
        }
    } else if m.phase == Phase::Rest {
        if m.stage == 0 {
            if m.rest_pos >= m.rest.len() {
                assert forall|e: int| 0 <= e < file.broadcast_groups@.len() implies group_exists(
                    ex2.groups@,
                    (#[trigger] file.broadcast_groups@[e]).name@,
                ) by {}
            }
        } else if m.stage == 1 {
            let it = m.rest[m.rest_pos];
            match it {
                RestView::Group { entry, members } => {
                    if answered_id(a) is Some {
                        assert(group_exists(ex2.groups@, file.broadcast_groups@[entry].name@));
                        assert forall|e: int|
                            0 <= e < file.broadcast_groups@.len() implies group_exists(
                            ex2.groups@,
                            (#[trigger] file.broadcast_groups@[e]).name@,
                        ) || exists|q: int|
                            m2.rest_pos <= q < m2.rest.len() && is_group_item(#[trigger] m2.rest[q], e) && (q == m2.rest_pos
                                ==> m2.stage <= 1) by {
                            if !group_exists(ex2.groups@, file.broadcast_groups@[e].name@) {
                                let q = choose|q: int|
                                    m.rest_pos <= q < m.rest.len() && is_group_item(#[trigger] m.rest[q], e) && (q
                                        == m.rest_pos ==> m.stage <= 1);
                                assert(m2.rest[q] == m.rest[q]);
                                if q == m.rest_pos {
                                    assert(entry == e);
                                }
                            }
                        }
                    }
                },
                RestView::Snippet { entry } => {
                    if answered_id(a) is Some {
                        let x = file.snippets@[entry];
                        let q = choose|q: int|
                            0 <= q < ex2.snippets@.len() && (#[trigger] ex2.snippets@[q]).name@ == x.name@ && opt_str(
                                ex2.snippets@[q].platform,
                            ) == opt_str(x.platform);
                        assert(snippet_held(ex2, x));
                        assert forall|e: int|
                            0 <= e < file.snippets@.len() implies snippet_held(ex2, #[trigger] file.snippets@[e])
                            || exists|q: int|
                            m2.rest_pos <= q < m2.rest.len() && (#[trigger] m2.rest[q]) == (RestView::Snippet {
                                entry: e,
                            }) by {
                            if !snippet_held(ex2, file.snippets@[e]) {
                                let q = choose|q: int|
                                    m.rest_pos <= q < m.rest.len() && (#[trigger] m.rest[q]) == (RestView::Snippet {
                                        entry: e,
                                    });
                                assert(m2.rest[q] == m.rest[q]);
                                if q == m.rest_pos {
                                    assert(entry == e);
                                }
                            }
                        }
                        assert forall|e: int|
                            0 <= e < file.broadcast_groups@.len() implies group_exists(
                            ex2.groups@,
                            (#[trigger] file.broadcast_groups@[e]).name@,
                        ) || exists|q: int|
                            m2.rest_pos <= q < m2.rest.len() && is_group_item(#[trigger] m2.rest[q], e) && (q == m2.rest_pos
                                ==> m2.stage <= 1) by {
                            if !group_exists(ex2.groups@, file.broadcast_groups@[e].name@) {
                                let q = choose|q: int|
                                    m.rest_pos <= q < m.rest.len() && is_group_item(#[trigger] m.rest[q], e) && (q
                                        == m.rest_pos ==> m.stage <= 1);
                                assert(m2.rest[q] == m.rest[q]);
                            }
                        }
                        assert forall|e: int|
                            0 <= e < file.highlight_rules@.len() implies rule_held(ex2, #[trigger] file.highlight_rules@[e])
                            || exists|q: int|
                            m2.rest_pos <= q < m2.rest.len() && (#[trigger] m2.rest[q]) == (RestView::Rule { entry: e }) by {
                            if !rule_held(ex2, file.highlight_rules@[e]) {
                                let q = choose|q: int|
                                    m.rest_pos <= q < m.rest.len() && (#[trigger] m.rest[q]) == (RestView::Rule {
                                        entry: e,
                                    });
                                assert(m2.rest[q] == m.rest[q]);
                            }
                        }
                    }
                },
                RestView::Rule { entry } => {
                    if answered_id(a) is Some {
                        let x = file.highlight_rules@[entry];
                        let q = choose|q: int|
                            0 <= q < ex2.rules@.len() && (#[trigger] ex2.rules@[q]).pattern@ == x.pattern@
                                && ex2.rules@[q].is_regex == x.is_regex;
                        assert(rule_held(ex2, x));
                        assert forall|e: int|
                            0 <= e < file.highlight_rules@.len() implies rule_held(ex2, #[trigger] file.highlight_rules@[e])
                            || exists|q: int|
                            m2.rest_pos <= q < m2.rest.len() && (#[trigger] m2.rest[q]) == (RestView::Rule { entry: e }) by {
                            if !rule_held(ex2, file.highlight_rules@[e]) {
                                let q = choose|q: int|
                                    m.rest_pos <= q < m.rest.len() && (#[trigger] m.rest[q]) == (RestView::Rule {
                                        entry: e,
                                    });
                                assert(m2.rest[q] == m.rest[q]);
                                if q == m.rest_pos {
                                    assert(entry == e);
                                }
                            }
                        }
                        assert forall|e: int|
                            0 <= e < file.broadcast_groups@.len() implies group_exists(
                            ex2.groups@,
                            (#[trigger] file.broadcast_groups@[e]).name@,
                        ) || exists|q: int|
                            m2.rest_pos <= q < m2.rest.len() && is_group_item(#[trigger] m2.rest[q], e) && (q == m2.rest_pos
                                ==> m2.stage <= 1) by {
                            if !group_exists(ex2.groups@, file.broadcast_groups@[e].name@) {
                                let q = choose|q: int|
                                    m.rest_pos <= q < m.rest.len() && is_group_item(#[trigger] m.rest[q], e) && (q
                                        == m.rest_pos ==> m.stage <= 1);
                                assert(m2.rest[q] == m.rest[q]);
                            }
                        }
                        assert forall|e: int|
                            0 <= e < file.snippets@.len() implies snippet_held(ex2, #[trigger] file.snippets@[e])
                            || exists|q: int|
                            m2.rest_pos <= q < m2.rest.len() && (#[trigger] m2.rest[q]) == (RestView::Snippet {
                                entry: e,
                            }) by {
                            if !snippet_held(ex2, file.snippets@[e]) {
                                let q = choose|q: int|
                                    m.rest_pos <= q < m.rest.len() && (#[trigger] m.rest[q]) == (RestView::Snippet {
                                        entry: e,
                                    });
                                assert(m2.rest[q] == m.rest[q]);
                            }
                        }
                    }
                },
                _ => {},
            }
        }
        if m2.phase == Phase::Rest {
            assert forall|e: int|
                0 <= e < file.snippets@.len() implies snippet_held(ex2, #[trigger] file.snippets@[e]) || exists|q: int|
                m2.rest_pos <= q < m2.rest.len() && (#[trigger] m2.rest[q]) == (RestView::Snippet { entry: e }) by {
                if !snippet_held(ex2, file.snippets@[e]) {
                    let q = choose|q: int|
                        m.rest_pos <= q < m.rest.len() && (#[trigger] m.rest[q]) == (RestView::Snippet { entry: e });
                    if q == m.rest_pos && m2.rest_pos != m.rest_pos {
                        let x = file.snippets@[e];
                        assert(m.stage == 1);
                        assert(answered_id(a) is Some);
                        let w = choose|w: int|
                            0 <= w < ex2.snippets@.len() && (#[trigger] ex2.snippets@[w]).name@ == x.name@ && opt_str(
                                ex2.snippets@[w].platform,
                            ) == opt_str(x.platform);
                        assert(snippet_held(ex2, x));
                    }
                    assert(m2.rest[q] == m.rest[q]);
                }
            }
            assert forall|e: int|
                0 <= e < file.highlight_rules@.len() implies rule_held(ex2, #[trigger] file.highlight_rules@[e]) || exists|
                q: int,
            | m2.rest_pos <= q < m2.rest.len() && (#[trigger] m2.rest[q]) == (RestView::Rule { entry: e }) by {
                if !rule_held(ex2, file.highlight_rules@[e]) {
                    let q = choose|q: int|
                        m.rest_pos <= q < m.rest.len() && (#[trigger] m.rest[q]) == (RestView::Rule { entry: e });
                    if q == m.rest_pos && m2.rest_pos != m.rest_pos {
                        let x = file.highlight_rules@[e];
                        assert(m.stage == 1);
                        assert(answered_id(a) is Some);
                        let w = choose|w: int|
                            0 <= w < ex2.rules@.len() && (#[trigger] ex2.rules@[w]).pattern@ == x.pattern@
                                && ex2.rules@[w].is_regex == x.is_regex;
                        assert(rule_held(ex2, x));
                    }
                    assert(m2.rest[q] == m.rest[q]);
                }
            }
            assert forall|e: int|
                0 <= e < file.broadcast_groups@.len() implies group_exists(
                ex2.groups@,
                (#[trigger] file.broadcast_groups@[e]).name@,
            ) || exists|q: int|
                m2.rest_pos <= q < m2.rest.len() && is_group_item(#[trigger] m2.rest[q], e) && (q == m2.rest_pos ==> m2.stage
                    <= 1) by {
                if !group_exists(ex2.groups@, file.broadcast_groups@[e].name@) {
                    let q = choose|q: int|
                        m.rest_pos <= q < m.rest.len() && is_group_item(#[trigger] m.rest[q], e) && (q == m.rest_pos
                            ==> m.stage <= 1);
                    assert(m2.rest[q] == m.rest[q]);
                }
            }
        }
    }
}

proof fn lemma_run1_steps(
    file: ExportFile,
    ex1: Existing,
    ex2: Existing,
    m: RunModel,
    prev: StepView,
    answers: Seq<Option<AnswerView>>,
)
    requires
        folder_tree(file),
        unique_places(ex2),
        extends(ex1, ex2),
        run1_inv(file, ex1, ex2, m, prev),
        answers.len() > 0 ==> recorded(ex2, prev, answers[0]),
        store_followed(ex2, run_steps(file, ex1, m, answers).1, answers),
    ensures
        forall|j: int|
            0 <= j < run_steps(file, ex1, m, answers).1.len() && (#[trigger] run_steps(file, ex1, m, answers).1[j] matches StepView::Finished(
                Ok(_),
            )) ==> import_held(file, ex2),
    decreases answers.len(),
{
    if answers.len() > 0 {
        lemma_run1_step(file, ex1, ex2, m, prev, answers[0]);
        let (m1, st) = run_step(file, ex1, m, answers[0]);
        let tail = answers.drop_first();
        let rest = run_steps(file, ex1, m1, tail).1;
        let all = run_steps(file, ex1, m, answers).1;
        assert(all == seq![st] + rest);
        if tail.len() > 0 {
            assert(all.len() == answers.len()) by {
                lemma_run_steps_len(file, ex1, m, answers);
            }
            assert(recorded(ex2, all[0], answers[1]));
            assert(tail[0] == answers[1]);
        }
        assert(store_followed(ex2, rest, tail)) by {
            assert forall|j: int| 0 <= j < rest.len() - 1 && j + 1 < tail.len() implies recorded(
                ex2,
                #[trigger] rest[j],
                tail[j + 1],
            ) by {
                assert(all[j + 1] == rest[j]);
                assert(tail[j + 1] == answers[j + 2]);
                lemma_run_steps_len(file, ex1, m, answers);
            }
        }
        lemma_run1_steps(file, ex1, ex2, m1, st, tail);
        assert forall|j: int|
            0 <= j < all.len() && (#[trigger] all[j] matches StepView::Finished(Ok(_))) implies import_held(file, ex2) by {
            if j > 0 {
                assert(all[j] == rest[j - 1]);
            }
        }
    }
}

proof fn lemma_run_steps_len(file: ExportFile, ex: Existing, m: RunModel, answers: Seq<Option<AnswerView>>)
    ensures
        run_steps(file, ex, m, answers).1.len() == answers.len(),
    decreases answers.len(),
{
    if answers.len() > 0 {
        let (m1, st) = run_step(file, ex, m, answers[0]);
        lemma_run_steps_len(file, ex, m1, answers.drop_first());
    }
}

/// Importing the same file twice adds nothing. A first import of `file`
/// onto a store holding `ex1` that finished without error, against a store
/// that did what it was asked (`ex2` holds what `ex1` held, then each
/// created record; no two folders share a name under one parent), is
/// followed by a second import of the same file onto `ex2` that asks for
/// no write at all, whatever the store answers, and that reports nothing
/// added and every session skipped. The file's folders form a tree
/// (distinct ids, every chain of parents ending at the root within the
/// file).
pub proof fn lemma_import_twice_adds_nothing(
    file: ExportFile,
    ex1: Existing,
    ex2: Existing,
    first: RunModel,
    answers1: Seq<Option<AnswerView>>,
    second: RunModel,
    answers2: Seq<Option<AnswerView>>,
)
    requires
        folder_tree(file),
        file.folders@.len() <= usize::MAX,
        first.phase == Phase::Start,
        first.folder_map.len() == 0,
        exists|j: int|
            0 <= j < run_steps(file, ex1, first, answers1).1.len() && (#[trigger] run_steps(
                file,
                ex1,
                first,
                answers1,
            ).1[j] matches StepView::Finished(Ok(_))),
        extends(ex1, ex2),
        unique_places(ex2),
        store_followed(ex2, run_steps(file, ex1, first, answers1).1, answers1),
        second.phase == Phase::Start,
        second.summary == no_summary(),
        second.folder_map.len() == 0,
        second.added.len() == 0,
        second.needs_via.len() == 0,
    ensures
        forall|j: int|
            0 <= j < run_steps(file, ex2, second, answers2).1.len() ==> adds_nothing(
                file,
                #[trigger] run_steps(file, ex2, second, answers2).1[j],
            ),
{
    lemma_run1_steps(file, ex1, ex2, first, StepView::Continue, answers1);
    let j = choose|j: int|
        0 <= j < run_steps(file, ex1, first, answers1).1.len() && (#[trigger] run_steps(file, ex1, first, answers1).1[j] matches StepView::Finished(
            Ok(_),
        ));
    assert(import_held(file, ex2));
    lemma_reimport_writes_nothing(file, ex2, second, answers2);
}

} // verus!
