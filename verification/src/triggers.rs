//! Output triggers: an action fires when a pattern matches a line of the
//! session's output. Unlike a login script, triggers are an unordered set
//! that stays armed for the whole session and may fire repeatedly.
//!
//! Matching is per line: raw output is accumulated and split on `\n`; each
//! completed line is ANSI-stripped and tested against every enabled trigger.
//! A per-trigger cooldown keeps a `send` action from looping on its own echo.
//! The caller passes the time in milliseconds and drains the queued effects.
use vstd::prelude::*;
use crate::ansi::{strip_ansi, strip_once};
use crate::pattern::{regex_is_match, regex_search};
use crate::text::{contains, contains_seq, owned, string_from_range, to_chars, lossy};

verus! {

/// One output trigger.
#[derive(Debug, Clone)]
pub struct Trigger {
    /// Pattern tested against each ANSI-stripped output line.
    pub pattern: String,
    /// Whether `pattern` is a regex (an invalid one is matched literally).
    pub is_regex: bool,
    /// `"notify"`, `"send"` or `"bell"`.
    pub action: String,
    /// The text to send (`send`) or the message to show (empty: the line).
    pub text: String,
    pub enabled: bool,
}

/// Abstract trigger.
pub struct TriggerView {
    pub pattern: Seq<char>,
    pub is_regex: bool,
    pub action: Seq<char>,
    pub text: Seq<char>,
    pub enabled: bool,
}

impl View for Trigger {
    type V = TriggerView;

    open spec fn view(&self) -> TriggerView {
        TriggerView {
            pattern: self.pattern@,
            is_regex: self.is_regex,
            action: self.action@,
            text: self.text@,
            enabled: self.enabled,
        }
    }
}

/// The views of a list of triggers.
pub open spec fn trigger_views(v: Seq<Trigger>) -> Seq<TriggerView> {
    Seq::new(v.len(), |i: int| v[i]@)
}

/// A trigger without an `enabled` flag is enabled.
pub fn default_true() -> (r: bool)
    ensures
        r,
{
    true
}

/// A `notify` or `bell` trigger that fired.
#[derive(Debug, Clone)]
pub struct TriggerFired {
    pub session_id: String,
    /// `"notify"` or `"bell"`.
    pub kind: String,
    /// The custom text, or the matched line.
    pub text: String,
}

/// Longest unterminated line kept.
pub const MAX_LINE: usize = 8192;

/// Minimum gap, in milliseconds, between two fires of the same trigger.
pub const COOLDOWN_MS: u64 = 300;

/// A trigger's pattern, ready for matching.
pub enum Matcher {
    Literal(String),
    /// Regular expression (matched literally when it does not compile).
    Regex(String),
}

/// Abstract matcher.
pub enum MatcherView {
    Literal(Seq<char>),
    Regex(Seq<char>),
}

impl View for Matcher {
    type V = MatcherView;

    open spec fn view(&self) -> MatcherView {
        match self {
            Matcher::Literal(p) => MatcherView::Literal(p@),
            Matcher::Regex(p) => MatcherView::Regex(p@),
        }
    }
}

/// The matcher of a pattern.
pub open spec fn matcher_of(pattern: Seq<char>, is_regex: bool) -> MatcherView {
    if is_regex {
        MatcherView::Regex(pattern)
    } else {
        MatcherView::Literal(pattern)
    }
}

/// A non-empty literal occurring in `hay`.
pub open spec fn literal_hit(p: Seq<char>, hay: Seq<char>) -> bool {
    p.len() > 0 && contains(hay, p)
}

/// Whether a matcher matches `hay`.
pub open spec fn matcher_hit(m: MatcherView, hay: Seq<char>) -> bool {
    match m {
        MatcherView::Literal(p) => literal_hit(p, hay),
        MatcherView::Regex(p) => match regex_search(p, hay) {
            Some(b) => b,
            None => literal_hit(p, hay),
        },
    }
}

fn literal_match(p: &str, hay: &str) -> (b: bool)
    ensures
        b == literal_hit(p@, hay@),
{
    let pc = to_chars(p);
    pc.len() > 0 && contains_seq(&to_chars(hay), &pc)
}

impl Matcher {
    /// Prepares the matcher of a trigger's pattern.
    pub fn build(pattern: &str, is_regex: bool) -> (r: Matcher)
        ensures
            r@ == matcher_of(pattern@, is_regex),
    {
        if is_regex {
            Matcher::Regex(owned(pattern))
        } else {
            Matcher::Literal(owned(pattern))
        }
    }

    /// Whether the pattern matches `haystack`.
    pub fn is_match(&self, haystack: &str) -> (b: bool)
        ensures
            b == matcher_hit(self@, haystack@),
    {
        match self {
            Matcher::Literal(p) => literal_match(p.as_str(), haystack),
            Matcher::Regex(p) => match regex_is_match(p.as_str(), haystack) {
                Some(b) => b,
                None => literal_match(p.as_str(), haystack),
            },
        }
    }
}

// ---------------------------------------------------------------------------
// The runner
// ---------------------------------------------------------------------------

/// What the runner asks its caller to do.
#[derive(Debug, Clone)]
pub enum TriggerEffect {
    /// Write these bytes to the session.
    Send(Vec<u8>),
    /// Show a notification or ring the bell.
    Fired(TriggerFired),
}

/// Abstract effect.
pub enum TriggerEffectView {
    Send(Seq<u8>),
    Fired { session_id: Seq<char>, kind: Seq<char>, text: Seq<char> },
}

impl View for TriggerEffect {
    type V = TriggerEffectView;

    open spec fn view(&self) -> TriggerEffectView {
        match self {
            TriggerEffect::Send(b) => TriggerEffectView::Send(b@),
            TriggerEffect::Fired(f) => TriggerEffectView::Fired {
                session_id: f.session_id@,
                kind: f.kind@,
                text: f.text@,
            },
        }
    }
}

/// The views of a list of effects.
pub open spec fn trigger_effect_views(v: Seq<TriggerEffect>) -> Seq<TriggerEffectView> {
    Seq::new(v.len(), |i: int| v[i]@)
}

/// What firing trigger `t` on `line` does: `send` types the text and a
/// carriage return; `bell` rings; anything else notifies. The message is
/// the trigger's text, or the line when the text is empty.
pub open spec fn fire_effect(t: TriggerView, session: Seq<char>, line: Seq<char>) -> TriggerEffectView {
    if t.action == "send"@ {
        TriggerEffectView::Send(vstd::utf8::encode_utf8(t.text).push(13u8))
    } else {
        TriggerEffectView::Fired {
            session_id: session,
            kind: if t.action == "bell"@ {
                "bell"@
            } else {
                "notify"@
            },
            text: if t.text.len() == 0 {
                line
            } else {
                t.text
            },
        }
    }
}

/// Whether a trigger last fired at `last` is still cooling down at `now`.
pub open spec fn cooling(last: Option<u64>, now: u64) -> bool {
    match last {
        Some(t) => now < t || now - t < COOLDOWN_MS,
        None => false,
    }
}

/// When each trigger last fired, and the queued effects.
pub struct FireState {
    pub last_fired: Seq<Option<u64>>,
    pub effects: Seq<TriggerEffectView>,
}

/// Tests `line` against triggers `i..` at time `now`.
pub open spec fn eval_from(
    trigs: Seq<TriggerView>,
    session: Seq<char>,
    fs: FireState,
    line: Seq<char>,
    now: u64,
    i: int,
) -> FireState
    decreases trigs.len() - i,
{
    if i < 0 || i >= trigs.len() {
        fs
    } else {
        let t = trigs[i];
        let fs2 = if t.enabled && matcher_hit(matcher_of(t.pattern, t.is_regex), line) && !cooling(
            fs.last_fired[i],
            now,
        ) {
            FireState {
                last_fired: fs.last_fired.update(i, Some(now)),
                effects: fs.effects.push(fire_effect(t, session, line)),
            }
        } else {
            fs
        };
        eval_from(trigs, session, fs2, line, now, i + 1)
    }
}

/// Index of the first `\n` in `b` at or after `from` (or `b.len()`).
pub open spec fn first_nl(b: Seq<u8>, from: int) -> int
    decreases b.len() - from,
{
    if from < 0 || from >= b.len() {
        b.len() as int
    } else if b[from] == 10u8 {
        from
    } else {
        first_nl(b, from + 1)
    }
}

/// `s` without trailing `\r` and `\n` characters.
pub open spec fn trim_newlines(s: Seq<char>) -> Seq<char>
    decreases s.len(),
{
    if s.len() > 0 && (s.last() == '\r' || s.last() == '\n') {
        trim_newlines(s.drop_last())
    } else {
        s
    }
}

/// The text of a raw line: ANSI-stripped, decoded, line ending removed.
pub open spec fn line_text(raw: Seq<u8>) -> Seq<char> {
    trim_newlines(lossy(strip_once(raw)))
}

/// Evaluates every complete line of `buf`; returns the new state and the
/// unterminated tail.
pub open spec fn eval_lines(trigs: Seq<TriggerView>, session: Seq<char>, fs: FireState, buf: Seq<u8>, now: u64) -> (
    FireState,
    Seq<u8>,
)
    decreases buf.len(),
{
    let p = first_nl(buf, 0);
    if p < 0 || p >= buf.len() {
        (fs, buf)
    } else {
        eval_lines(
            trigs,
            session,
            eval_from(trigs, session, fs, line_text(buf.take(p + 1)), now, 0),
            buf.skip(p + 1),
            now,
        )
    }
}

/// The last `MAX_LINE` bytes of `b`.
pub open spec fn capped_line(b: Seq<u8>) -> Seq<u8> {
    if b.len() > MAX_LINE {
        b.skip(b.len() - MAX_LINE)
    } else {
        b
    }
}

/// The runner's state.
pub struct TriggerModel {
    pub line: Seq<u8>,
    pub last_fired: Seq<Option<u64>>,
    pub effects: Seq<TriggerEffectView>,
}

/// The state after output `data` arrives at time `now`.
pub open spec fn trig_fed(trigs: Seq<TriggerView>, session: Seq<char>, st: TriggerModel, data: Seq<u8>, now: u64) -> TriggerModel {
    let (fs, tail) = eval_lines(
        trigs,
        session,
        FireState { last_fired: st.last_fired, effects: st.effects },
        st.line + data,
        now,
    );
    TriggerModel { line: capped_line(tail), last_fired: fs.last_fired, effects: fs.effects }
}

/// Runs a session's triggers against its output.
pub struct TriggerRunner {
    triggers: Vec<Trigger>,
    matchers: Vec<Matcher>,
    session_id: String,
    line: Vec<u8>,
    last_fired: Vec<Option<u64>>,
    effects: Vec<TriggerEffect>,
}

impl TriggerRunner {
    /// The triggers.
    pub closed spec fn triggers_view(&self) -> Seq<TriggerView> {
        trigger_views(self.triggers@)
    }

    /// The session the triggers watch.
    pub closed spec fn session_view(&self) -> Seq<char> {
        self.session_id@
    }

    /// The runner's state.
    pub closed spec fn model(&self) -> TriggerModel {
        TriggerModel {
            line: self.line@,
            last_fired: self.last_fired@,
            effects: trigger_effect_views(self.effects@),
        }
    }

    /// The invariant: one matcher and one last-fired time per trigger, and a
    /// bounded unterminated line.
    pub closed spec fn wf(&self) -> bool {
        &&& self.wf_core()
        &&& self.line@.len() <= MAX_LINE
    }

    /// The invariant without the bound on the line.
    closed spec fn wf_core(&self) -> bool {
        &&& self.matchers@.len() == self.triggers@.len()
        &&& self.last_fired@.len() == self.triggers@.len()
        &&& forall|i: int|
            0 <= i < self.triggers@.len() ==> (#[trigger] self.matchers@[i])@ == matcher_of(
                self.triggers@[i].pattern@,
                self.triggers@[i].is_regex,
            )
    }

    /// A runner for `triggers` in session `session_id`; nothing has fired.
    pub fn new(session_id: String, triggers: Vec<Trigger>) -> (r: TriggerRunner)
        ensures
            r.wf(),
            r.triggers_view() == trigger_views(triggers@),
            r.session_view() == session_id@,
            r.model() == (TriggerModel {
                line: Seq::empty(),
                last_fired: Seq::new(triggers@.len(), |i: int| None),
                effects: Seq::empty(),
            }),
    {
        let mut matchers: Vec<Matcher> = Vec::new();
        let mut last_fired: Vec<Option<u64>> = Vec::new();
        let mut i: usize = 0;
        while i < triggers.len()
            invariant
                i <= triggers@.len(),
                matchers@.len() == i,
                last_fired@ == Seq::new(i as nat, |k: int| None::<u64>),
                forall|k: int|
                    0 <= k < i ==> (#[trigger] matchers@[k])@ == matcher_of(triggers@[k].pattern@, triggers@[k].is_regex),
            decreases triggers.len() - i,
        {
            let m = Matcher::build(triggers[i].pattern.as_str(), triggers[i].is_regex);
            matchers.push(m);
            last_fired.push(None);
            assert(last_fired@ =~= Seq::new((i + 1) as nat, |k: int| None::<u64>));
            i = i + 1;
        }
        let r = TriggerRunner { triggers, matchers, session_id, line: Vec::new(), last_fired, effects: Vec::new() };
        assert(trigger_effect_views(r.effects@) =~= Seq::<TriggerEffectView>::empty());
        assert(r.line@ =~= Seq::<u8>::empty());
        r
    }

    /// Hands over the queued effects, oldest first.
    pub fn take_effects(&mut self) -> (r: Vec<TriggerEffect>)
        ensures
            trigger_effect_views(r@) == old(self).model().effects,
            final(self).model() == (TriggerModel { effects: Seq::empty(), ..old(self).model() }),
            final(self).wf() == old(self).wf(),
            final(self).triggers_view() == old(self).triggers_view(),
            final(self).session_view() == old(self).session_view(),
    {
        let mut r: Vec<TriggerEffect> = Vec::new();
        std::mem::swap(&mut self.effects, &mut r);
        assert(trigger_effect_views(self.effects@) =~= Seq::<TriggerEffectView>::empty());
        r
    }

    /// Queues what trigger `i` does on `line`.
    fn fire(&mut self, i: usize, line: &str)
        requires
            i < old(self).triggers@.len(),
        ensures
            final(self).triggers == old(self).triggers,
            final(self).matchers == old(self).matchers,
            final(self).session_id == old(self).session_id,
            final(self).line == old(self).line,
            final(self).last_fired == old(self).last_fired,
            trigger_effect_views(final(self).effects@) == trigger_effect_views(old(self).effects@).push(
                fire_effect(old(self).triggers@[i as int]@, old(self).session_id@, line@),
            ),
    {
        let ghost before = self.effects@;
        let e = if crate::text::str_is(self.triggers[i].action.as_str(), "send") {
            let tb = self.triggers[i].text.as_str().as_bytes();
            let mut bytes: Vec<u8> = Vec::new();
            let mut k: usize = 0;
            while k < tb.len()
                invariant
                    k <= tb@.len(),
                    bytes@ == tb@.take(k as int),
                decreases tb.len() - k,
            {
                bytes.push(tb[k]);
                assert(tb@.take(k + 1) =~= tb@.take(k as int).push(tb@[k as int]));
                k = k + 1;
            }
            assert(tb@.take(k as int) =~= tb@);
            bytes.push(13u8);
            TriggerEffect::Send(bytes)
        } else {
            let kind = if crate::text::str_is(self.triggers[i].action.as_str(), "bell") {
                owned("bell")
            } else {
                owned("notify")
            };
            let text = if to_chars(self.triggers[i].text.as_str()).len() == 0 {
                owned(line)
            } else {
                self.triggers[i].text.clone()
            };
            TriggerEffect::Fired(TriggerFired { session_id: self.session_id.clone(), kind, text })
        };
        self.effects.push(e);
        assert(trigger_effect_views(self.effects@) =~= trigger_effect_views(before).push(e@));
    }

    /// Tests `line` against every trigger at time `now`.
    fn eval_line(&mut self, line: &str, now: u64)
        requires
            old(self).wf_core(),
        ensures
            final(self).wf_core(),
            final(self).triggers == old(self).triggers,
            final(self).matchers == old(self).matchers,
            final(self).session_id == old(self).session_id,
            final(self).line == old(self).line,
            (FireState { last_fired: final(self).last_fired@, effects: final(self).model().effects }) == eval_from(
                old(self).triggers_view(),
                old(self).session_view(),
                FireState { last_fired: old(self).last_fired@, effects: old(self).model().effects },
                line@,
                now,
                0,
            ),
    {
        let ghost tv = self.triggers_view();
        let ghost sess = self.session_view();
        let ghost goal = eval_from(
            tv,
            sess,
            FireState { last_fired: self.last_fired@, effects: self.model().effects },
            line@,
            now,
            0,
        );
        let mut i: usize = 0;
        while i < self.triggers.len()
            invariant
                self.wf_core(),
                i <= self.triggers@.len(),
                self.triggers == old(self).triggers,
                self.matchers == old(self).matchers,
                self.session_id == old(self).session_id,
                self.line == old(self).line,
                tv == self.triggers_view(),
                sess == self.session_view(),
                goal == eval_from(
                    tv,
                    sess,
                    FireState { last_fired: self.last_fired@, effects: self.model().effects },
                    line@,
                    now,
                    i as int,
                ),
            decreases self.triggers@.len() - i,
        {
            assert(tv[i as int] == self.triggers@[i as int]@);
            if self.triggers[i].enabled && self.matchers[i].is_match(line) {
                let cool = match self.last_fired[i] {
                    Some(t) => now < t || now - t < COOLDOWN_MS,
                    None => false,
                };
                if !cool {
                    self.last_fired.set(i, Some(now));
                    self.fire(i, line);
                }
            }
            i = i + 1;
        }
    }

    /// Output `data` arrives at time `now_ms`: every line it completes is
    /// ANSI-stripped and tested against the triggers; the unterminated tail
    /// is kept (its last `MAX_LINE` bytes).
    pub fn feed(&mut self, data: &[u8], now_ms: u64)
        requires
            old(self).wf(),
        ensures
            final(self).wf(),
            final(self).triggers_view() == old(self).triggers_view(),
            final(self).session_view() == old(self).session_view(),
            final(self).model() == trig_fed(old(self).triggers_view(), old(self).session_view(), old(self).model(), data@, now_ms),
    {
        let ghost tv = self.triggers_view();
        let ghost sess = self.session_view();
        let ghost b0 = self.line@;
        let mut k: usize = 0;
        while k < data.len()
            invariant
                k <= data@.len(),
                self.line@ == b0 + data@.take(k as int),
                self.triggers == old(self).triggers,
                self.matchers == old(self).matchers,
                self.session_id == old(self).session_id,
                self.last_fired == old(self).last_fired,
                self.effects == old(self).effects,
            decreases data.len() - k,
        {
            self.line.push(data[k]);
            assert(b0 + data@.take(k + 1) =~= (b0 + data@.take(k as int)).push(data@[k as int]));
            k = k + 1;
        }
        assert(data@.take(k as int) =~= data@);
        let ghost buf = self.line@;
        let ghost goal = eval_lines(
            tv,
            sess,
            FireState { last_fired: self.last_fired@, effects: self.model().effects },
            buf,
            now_ms,
        );
        let n = self.line.len();
        let mut start: usize = 0;
        assert(buf.skip(0) =~= buf);
        loop
            invariant_except_break
                start <= n,
                n == buf.len(),
                self.line@ == buf,
                self.triggers == old(self).triggers,
                self.matchers == old(self).matchers,
                self.session_id == old(self).session_id,
                self.wf_core(),
                tv == self.triggers_view(),
                sess == self.session_view(),
                goal == eval_lines(
                    tv,
                    sess,
                    FireState { last_fired: self.last_fired@, effects: self.model().effects },
                    buf.skip(start as int),
                    now_ms,
                ),
            ensures
                start <= n,
                n == buf.len(),
                self.line@ == buf,
                self.triggers == old(self).triggers,
                self.matchers == old(self).matchers,
                self.session_id == old(self).session_id,
                self.wf_core(),
                goal == (FireState { last_fired: self.last_fired@, effects: self.model().effects }, buf.skip(start as int)),
            decreases n - start,
        {
            let ghost rest = buf.skip(start as int);
            let mut p = start;
            while p < n && self.line[p] != 10u8
                invariant
                    start <= p <= n,
                    n == buf.len(),
                    self.line@ == buf,
                    rest == buf.skip(start as int),
                    first_nl(rest, 0) == first_nl(rest, p - start),
                decreases n - p,
            {
                assert(rest[p - start] == buf[p as int]);
                p = p + 1;
            }
            if p == n {
                assert(first_nl(rest, p - start) == rest.len());
                break;
            }
            assert(rest[p - start] == buf[p as int]);
            assert(first_nl(rest, p - start) == p - start);
            let mut raw: Vec<u8> = Vec::new();
            let mut q = start;
            while q <= p
                invariant
                    start <= q <= p + 1,
                    p < n,
                    n == buf.len(),
                    self.line@ == buf,
                    raw@ == buf.subrange(start as int, q as int),
                decreases p + 1 - q,
            {
                raw.push(self.line[q]);
                assert(buf.subrange(start as int, q + 1) =~= buf.subrange(start as int, q as int).push(buf[q as int]));
                q = q + 1;
            }
            assert(rest.take(p - start + 1) =~= raw@);
            assert(rest.skip(p - start + 1) =~= buf.skip(p + 1));
            let stripped = strip_ansi(raw.as_slice());
            let text = trim_newlines_str(stripped.as_str());
            self.eval_line(text.as_str(), now_ms);
            start = p + 1;
        }
        let mut tail: Vec<u8> = Vec::new();
        let mut q = if n - start > MAX_LINE {
            n - MAX_LINE
        } else {
            start
        };
        let q0 = q;
        while q < n
            invariant
                q0 <= q <= n,
                n == buf.len(),
                self.line@ == buf,
                tail@ == buf.subrange(q0 as int, q as int),
            decreases n - q,
        {
            tail.push(self.line[q]);
            assert(buf.subrange(q0 as int, q + 1) =~= buf.subrange(q0 as int, q as int).push(buf[q as int]));
            q = q + 1;
        }
        let ghost t = buf.skip(start as int);
        assert(tail@ =~= capped_line(t));
        self.line = tail;
    }
}

/// `s` with trailing `\r`/`\n` characters removed.
fn trim_newlines_str(s: &str) -> (r: String)
    ensures
        r@ == trim_newlines(s@),
{
    let c = to_chars(s);
    let mut j = c.len();
    assert(c@.take(j as int) =~= c@);
    while j > 0 && (c[j - 1] == '\r' || c[j - 1] == '\n')
        invariant
            j <= c@.len(),
            trim_newlines(s@) == trim_newlines(c@.take(j as int)),
            c@ == s@,
        decreases j,
    {
        assert(c@.take(j as int).drop_last() =~= c@.take(j - 1));
        j = j - 1;
    }
    string_from_range(&c, 0, j)
}

proof fn lemma_no_nl(b: Seq<u8>, from: int)
    requires
        0 <= from <= b.len(),
        forall|k: int| 0 <= k < b.len() ==> b[k] != 10u8,
    ensures
        first_nl(b, from) == b.len(),
    decreases b.len() - from,
{
    if from < b.len() {
        lemma_no_nl(b, from + 1);
    }
}

/// Output without a line break fires nothing: it only extends the pending
/// line (keeping its last `MAX_LINE` bytes).
pub proof fn lemma_partial_line_waits(trigs: Seq<TriggerView>, session: Seq<char>, st: TriggerModel, data: Seq<u8>, now: u64)
    requires
        forall|k: int| 0 <= k < (st.line + data).len() ==> (st.line + data)[k] != 10u8,
    ensures
        trig_fed(trigs, session, st, data, now) == (TriggerModel { line: capped_line(st.line + data), ..st }),
{
    lemma_no_nl(st.line + data, 0);
}

proof fn lemma_disabled_from(trigs: Seq<TriggerView>, session: Seq<char>, fs: FireState, line: Seq<char>, now: u64, i: int)
    requires
        forall|k: int| 0 <= k < trigs.len() ==> !(#[trigger] trigs[k]).enabled,
    ensures
        eval_from(trigs, session, fs, line, now, i) == fs,
    decreases trigs.len() - i,
{
    if 0 <= i < trigs.len() {
        lemma_disabled_from(trigs, session, fs, line, now, i + 1);
    }
}

/// When no trigger is enabled, a line changes nothing.
pub proof fn lemma_disabled_never_fire(trigs: Seq<TriggerView>, session: Seq<char>, fs: FireState, line: Seq<char>, now: u64)
    requires
        forall|k: int| 0 <= k < trigs.len() ==> !(#[trigger] trigs[k]).enabled,
    ensures
        eval_from(trigs, session, fs, line, now, 0) == fs,
{
    lemma_disabled_from(trigs, session, fs, line, now, 0);
}

proof fn lemma_cooling_from(
    trigs: Seq<TriggerView>,
    session: Seq<char>,
    fs: FireState,
    line: Seq<char>,
    now: u64,
    i: int,
    t: int,
)
    requires
        0 <= i,
        trigs.len() == fs.last_fired.len(),
        0 <= t < fs.last_fired.len(),
        cooling(fs.last_fired[t], now),
    ensures
        eval_from(trigs, session, fs, line, now, i).last_fired.len() == fs.last_fired.len(),
        eval_from(trigs, session, fs, line, now, i).last_fired[t] == fs.last_fired[t],
    decreases trigs.len() - i,
{
    if i < trigs.len() {
        let tr = trigs[i];
        let fires = tr.enabled && matcher_hit(matcher_of(tr.pattern, tr.is_regex), line) && !cooling(fs.last_fired[i], now);
        let fs2 = if fires {
            FireState { last_fired: fs.last_fired.update(i, Some(now)), effects: fs.effects.push(fire_effect(tr, session, line)) }
        } else {
            fs
        };
        if fires {
            assert(i != t);
        }
        lemma_cooling_from(trigs, session, fs2, line, now, i + 1, t);
    }
}

/// A trigger that is still cooling down does not fire again: a line
/// leaves its last-fired time as it was.
pub proof fn lemma_cooldown_holds(
    trigs: Seq<TriggerView>,
    session: Seq<char>,
    fs: FireState,
    line: Seq<char>,
    now: u64,
    t: int,
)
    requires
        trigs.len() == fs.last_fired.len(),
        0 <= t < fs.last_fired.len(),
        cooling(fs.last_fired[t], now),
    ensures
        eval_from(trigs, session, fs, line, now, 0).last_fired[t] == fs.last_fired[t],
{
    lemma_cooling_from(trigs, session, fs, line, now, 0, t);
}

} // verus!
