//! Automated expect/send login scripts.
//!
//! A [`LoginRunner`] watches the raw output of a session. When it spots the
//! current step's `expect` pattern (in the ANSI-stripped output) it queues the
//! step's `send` bytes and arms the next step with its own deadline. `send`
//! steps fire as soon as they are reached; `wait` steps pause until their
//! deadline passes. The runner never touches a clock or a channel itself: the
//! caller passes the current time in milliseconds and drains the queued
//! effects (bytes to send, progress events) after each call.
use vstd::prelude::*;
use crate::ansi::{strip_ansi, strip_once};
use crate::escapes::{decode_escapes, unescape};
use crate::pattern::{regex_is_match, regex_search};
use crate::text::{contains, contains_seq, owned, to_chars, lossy};

verus! {

/// What a step does.
#[derive(Debug, Clone, Copy, PartialEq, Eq, Structural)]
pub enum StepKind {
    /// Wait for `expect` in the output, then send `send`; `timeout_ms` bounds
    /// the wait.
    Expect,
    /// Send `send` immediately.
    Send,
    /// Pause for `timeout_ms` milliseconds.
    Wait,
}

impl Default for StepKind {
    /// Saved scripts without a kind are `Expect` steps.
    fn default() -> (r: StepKind)
        ensures
            r == StepKind::Expect,
    {
        StepKind::Expect
    }
}

/// One step of a login script.
#[derive(Debug, Clone)]
pub struct LoginStep {
    pub kind: StepKind,
    /// Pattern to wait for in the ANSI-stripped output (`expect` only).
    pub expect: String,
    /// Whether `expect` is a regex (an invalid one is matched literally).
    pub is_regex: bool,
    /// Bytes to send, with backslash escapes; a trailing Enter is added when
    /// missing.
    pub send: String,
    /// `expect`: how long to wait; `wait`: the pause. Milliseconds.
    pub timeout_ms: u64,
}

/// Abstract step.
pub struct StepView {
    pub kind: StepKind,
    pub expect: Seq<char>,
    pub is_regex: bool,
    pub send: Seq<char>,
    pub timeout_ms: u64,
}

impl View for LoginStep {
    type V = StepView;

    open spec fn view(&self) -> StepView {
        StepView {
            kind: self.kind,
            expect: self.expect@,
            is_regex: self.is_regex,
            send: self.send@,
            timeout_ms: self.timeout_ms,
        }
    }
}

/// The views of a list of steps.
pub open spec fn step_views(v: Seq<LoginStep>) -> Seq<StepView> {
    Seq::new(v.len(), |i: int| v[i]@)
}

/// The timeout of a step that does not give one: ten seconds.
pub fn default_timeout_ms() -> (r: u64)
    ensures
        r == 10_000,
{
    10_000
}

/// Progress reported after each move of the script.
#[derive(Debug, Clone)]
pub struct LoginProgress {
    pub session_id: String,
    /// Index of the step the script stands at; equal to `total` when done.
    pub current: usize,
    pub total: usize,
    /// `"running"`, `"complete"` or `"timeout"`.
    pub status: String,
}

/// Abstract progress event.
pub struct ProgressView {
    pub session_id: Seq<char>,
    pub current: int,
    pub total: int,
    pub status: Seq<char>,
}

impl View for LoginProgress {
    type V = ProgressView;

    open spec fn view(&self) -> ProgressView {
        ProgressView {
            session_id: self.session_id@,
            current: self.current as int,
            total: self.total as int,
            status: self.status@,
        }
    }
}

/// Longest output kept for matching.
pub const MAX_BUF: usize = 65536;

// ---------------------------------------------------------------------------
// Matchers
// ---------------------------------------------------------------------------

/// A step's `expect`, ready for matching.
pub enum Matcher {
    /// Empty pattern: never matches.
    Empty,
    /// Literal substring.
    Literal(String),
    /// Regular expression (matched literally when it does not compile).
    Regex(String),
}

/// Abstract matcher.
pub enum MatcherView {
    Empty,
    Literal(Seq<char>),
    Regex(Seq<char>),
}

impl View for Matcher {
    type V = MatcherView;

    open spec fn view(&self) -> MatcherView {
        match self {
            Matcher::Empty => MatcherView::Empty,
            Matcher::Literal(p) => MatcherView::Literal(p@),
            Matcher::Regex(p) => MatcherView::Regex(p@),
        }
    }
}

/// The matcher of a pattern.
pub open spec fn matcher_of(expect: Seq<char>, is_regex: bool) -> MatcherView {
    if expect.len() == 0 {
        MatcherView::Empty
    } else if is_regex {
        MatcherView::Regex(expect)
    } else {
        MatcherView::Literal(expect)
    }
}

/// Whether a matcher finds its pattern in `hay`.
pub open spec fn matcher_hit(m: MatcherView, hay: Seq<char>) -> bool {
    match m {
        MatcherView::Empty => false,
        MatcherView::Literal(p) => contains(hay, p),
        MatcherView::Regex(p) => match regex_search(p, hay) {
            Some(b) => b,
            None => contains(hay, p),
        },
    }
}

impl Matcher {
    /// Prepares the matcher of `expect`. `_session_id` names the session the
    /// step belongs to.
    pub fn build(expect: &str, is_regex: bool, _session_id: &str) -> (r: Matcher)
        ensures
            r@ == matcher_of(expect@, is_regex),
    {
        if to_chars(expect).len() == 0 {
            return Matcher::Empty;
        }
        if is_regex {
            Matcher::Regex(owned(expect))
        } else {
            Matcher::Literal(owned(expect))
        }
    }

    /// Whether the pattern occurs in `haystack`.
    pub fn is_match(&self, haystack: &str) -> (b: bool)
        ensures
            b == matcher_hit(self@, haystack@),
    {
        match self {
            Matcher::Empty => false,
            Matcher::Literal(p) => contains_seq(&to_chars(haystack), &to_chars(p.as_str())),
            Matcher::Regex(p) => match regex_is_match(p.as_str(), haystack) {
                Some(b) => b,
                None => contains_seq(&to_chars(haystack), &to_chars(p.as_str())),
            },
        }
    }
}

// ---------------------------------------------------------------------------
// The runner
// ---------------------------------------------------------------------------

/// What the runner asks its caller to do.
#[derive(Debug, Clone)]
pub enum LoginEffect {
    /// Write these bytes to the session.
    Send(Vec<u8>),
    /// Report progress to the user interface.
    Progress(LoginProgress),
}

/// Abstract effect.
pub enum EffectView {
    Send(Seq<u8>),
    Progress(ProgressView),
}

impl View for LoginEffect {
    type V = EffectView;

    open spec fn view(&self) -> EffectView {
        match self {
            LoginEffect::Send(b) => EffectView::Send(b@),
            LoginEffect::Progress(p) => EffectView::Progress(p@),
        }
    }
}

/// The views of a list of effects.
pub open spec fn effect_views(v: Seq<LoginEffect>) -> Seq<EffectView> {
    Seq::new(v.len(), |i: int| v[i]@)
}

/// The bytes a `send` payload puts on the wire: escapes decoded, then a
/// carriage return appended unless the payload is empty or already ends in
/// `\n` or `\r`.
pub open spec fn send_payload(send: Seq<char>) -> Seq<u8> {
    let b = unescape(send);
    if b.len() > 0 && b.last() != 10u8 && b.last() != 13u8 {
        b.push(13u8)
    } else {
        b
    }
}

/// The effects of firing a step's `send`: nothing for an empty payload.
pub open spec fn send_effects(send: Seq<char>) -> Seq<EffectView> {
    if send_payload(send).len() == 0 {
        Seq::empty()
    } else {
        seq![EffectView::Send(send_payload(send))]
    }
}

/// A progress event.
pub open spec fn progress(session: Seq<char>, current: int, total: int, status: Seq<char>) -> EffectView {
    EffectView::Progress(ProgressView { session_id: session, current, total, status })
}

/// The runner's state.
pub struct RunnerModel {
    pub index: int,
    pub buffer: Seq<u8>,
    pub deadline: u64,
    pub effects: Seq<EffectView>,
}

/// `now + ms`, saturating at the largest time.
pub open spec fn deadline_after(now: u64, ms: u64) -> u64 {
    if now + ms > u64::MAX {
        u64::MAX
    } else {
        (now + ms) as u64
    }
}

/// Arming from `idx`: the index the script parks on and the effects of
/// getting there (leading `send` steps fire, then `running` or `complete`).
pub open spec fn arm_from(steps: Seq<StepView>, session: Seq<char>, idx: int) -> (int, Seq<EffectView>)
    decreases steps.len() - idx,
{
    if idx < 0 || idx >= steps.len() {
        (idx, seq![progress(session, idx, steps.len() as int, "complete"@)])
    } else if steps[idx].kind == StepKind::Send {
        let (j, e) = arm_from(steps, session, idx + 1);
        (j, send_effects(steps[idx].send) + e)
    } else {
        (idx, seq![progress(session, idx, steps.len() as int, "running"@)])
    }
}

/// The state after arming at time `now`: a parked step gets its deadline
/// and an empty buffer.
pub open spec fn armed(steps: Seq<StepView>, session: Seq<char>, st: RunnerModel, now: u64) -> RunnerModel {
    let (j, e) = arm_from(steps, session, st.index);
    if 0 <= j < steps.len() {
        RunnerModel {
            index: j,
            buffer: Seq::empty(),
            deadline: deadline_after(now, steps[j].timeout_ms),
            effects: st.effects + e,
        }
    } else {
        RunnerModel { index: j, effects: st.effects + e, ..st }
    }
}

/// The state right after construction at time `now`.
pub open spec fn started(steps: Seq<StepView>, session: Seq<char>, now: u64) -> RunnerModel {
    armed(steps, session, RunnerModel { index: 0, buffer: Seq::empty(), deadline: now, effects: Seq::empty() }, now)
}

/// The last `MAX_BUF` bytes of `b`.
pub open spec fn capped(b: Seq<u8>) -> Seq<u8> {
    if b.len() > MAX_BUF {
        b.skip(b.len() - MAX_BUF)
    } else {
        b
    }
}

/// The step gives up: the script ends with a `timeout` event.
pub open spec fn timed_out(steps: Seq<StepView>, session: Seq<char>, st: RunnerModel) -> RunnerModel {
    RunnerModel {
        index: steps.len() as int,
        effects: st.effects.push(progress(session, st.index, steps.len() as int, "timeout"@)),
        ..st
    }
}

/// The state after output `data` arrives at time `now`.
pub open spec fn fed(steps: Seq<StepView>, session: Seq<char>, st: RunnerModel, data: Seq<u8>, now: u64) -> RunnerModel {
    if st.index < 0 || st.index >= steps.len() || steps[st.index].kind != StepKind::Expect {
        st
    } else if now > st.deadline {
        timed_out(steps, session, st)
    } else {
        let buf = capped(st.buffer + data);
        let step = steps[st.index];
        if matcher_hit(matcher_of(step.expect, step.is_regex), lossy(strip_once(buf))) {
            armed(
                steps,
                session,
                RunnerModel { index: st.index + 1, buffer: buf, effects: st.effects + send_effects(step.send), ..st },
                now,
            )
        } else {
            RunnerModel { buffer: buf, ..st }
        }
    }
}

/// The state after a timer tick at time `now`, and whether the script is
/// finished.
pub open spec fn ticked(steps: Seq<StepView>, session: Seq<char>, st: RunnerModel, now: u64) -> (RunnerModel, bool) {
    if st.index < 0 || st.index >= steps.len() {
        (st, true)
    } else if now <= st.deadline {
        (st, false)
    } else if steps[st.index].kind == StepKind::Wait {
        let s2 = armed(steps, session, RunnerModel { index: st.index + 1, ..st }, now);
        (s2, s2.index >= steps.len())
    } else {
        (timed_out(steps, session, st), true)
    }
}

/// The bytes a `send` payload puts on the wire.
pub fn send_bytes(send: &str) -> (r: Vec<u8>)
    ensures
        r@ == send_payload(send@),
{
    let mut b = decode_escapes(send);
    let n = b.len();
    if n > 0 && b[n - 1] != 10u8 && b[n - 1] != 13u8 {
        b.push(13u8);
    }
    b
}

/// Where arming parks: at or after `idx`, on the end of the script or on a
/// step that is not `send`.
pub proof fn lemma_arm_parks(steps: Seq<StepView>, session: Seq<char>, idx: int)
    requires
        0 <= idx,
    ensures
        idx <= arm_from(steps, session, idx).0,
        arm_from(steps, session, idx).0 >= steps.len() || steps[arm_from(steps, session, idx).0].kind
            != StepKind::Send,
        idx <= steps.len() ==> arm_from(steps, session, idx).0 <= steps.len(),
    decreases steps.len() - idx,
{
    if idx < steps.len() && steps[idx].kind == StepKind::Send {
        lemma_arm_parks(steps, session, idx + 1);
    }
}

/// Runs a login script against a session's output.
pub struct LoginRunner {
    steps: Vec<LoginStep>,
    matchers: Vec<Matcher>,
    session_id: String,
    index: usize,
    buffer: Vec<u8>,
    deadline: u64,
    effects: Vec<LoginEffect>,
}

impl LoginRunner {
    /// The script's steps.
    pub closed spec fn steps_view(&self) -> Seq<StepView> {
        step_views(self.steps@)
    }

    /// The session the script runs in.
    pub closed spec fn session_view(&self) -> Seq<char> {
        self.session_id@
    }

    /// The runner's state.
    pub closed spec fn model(&self) -> RunnerModel {
        RunnerModel {
            index: self.index as int,
            buffer: self.buffer@,
            deadline: self.deadline,
            effects: effect_views(self.effects@),
        }
    }

    /// The runner's invariant: the index stays within the script, a script
    /// that is not finished stands on an `expect` or `wait` step, the
    /// matchers are those of the steps, and the buffer stays bounded.
    pub closed spec fn wf(&self) -> bool {
        &&& self.index <= self.steps@.len()
        &&& self.index < self.steps@.len() ==> self.steps@[self.index as int].kind != StepKind::Send
        &&& self.matchers@.len() == self.steps@.len()
        &&& forall|i: int|
            0 <= i < self.steps@.len() ==> (#[trigger] self.matchers@[i])@ == matcher_of(
                self.steps@[i].expect@,
                self.steps@[i].is_regex,
            )
        &&& self.buffer@.len() <= MAX_BUF
    }

    /// Queues a progress event.
    fn emit(&mut self, current: usize, status: &str)
        ensures
            final(self).steps == old(self).steps,
            final(self).matchers == old(self).matchers,
            final(self).session_id == old(self).session_id,
            final(self).index == old(self).index,
            final(self).buffer == old(self).buffer,
            final(self).deadline == old(self).deadline,
            effect_views(final(self).effects@) == effect_views(old(self).effects@).push(
                progress(old(self).session_id@, current as int, old(self).steps@.len() as int, status@),
            ),
    {
        let p = LoginProgress {
            session_id: self.session_id.clone(),
            current,
            total: self.steps.len(),
            status: owned(status),
        };
        let ghost before = self.effects@;
        self.effects.push(LoginEffect::Progress(p));
        assert(effect_views(self.effects@) =~= effect_views(before).push(
            progress(self.session_id@, current as int, self.steps@.len() as int, status@),
        ));
    }

    /// Queues the `send` of step `idx`.
    fn fire_send(&mut self, idx: usize)
        requires
            idx < old(self).steps@.len(),
        ensures
            final(self).steps == old(self).steps,
            final(self).matchers == old(self).matchers,
            final(self).session_id == old(self).session_id,
            final(self).index == old(self).index,
            final(self).buffer == old(self).buffer,
            final(self).deadline == old(self).deadline,
            effect_views(final(self).effects@) == effect_views(old(self).effects@) + send_effects(
                old(self).steps@[idx as int].send@,
            ),
    {
        let bytes = send_bytes(self.steps[idx].send.as_str());
        let ghost before = self.effects@;
        if bytes.len() > 0 {
            self.effects.push(LoginEffect::Send(bytes));
            assert(effect_views(self.effects@) =~= effect_views(before) + send_effects(
                self.steps@[idx as int].send@,
            ));
        } else {
            assert(effect_views(self.effects@) =~= effect_views(before) + send_effects(
                self.steps@[idx as int].send@,
            ));
        }
    }

    /// Fires the `send` steps from the current index on and parks on the
    /// next `expect`/`wait` step (arming its deadline) or completes.
    fn arm(&mut self, now: u64)
        requires
            old(self).index <= old(self).steps@.len(),
        ensures
            final(self).steps == old(self).steps,
            final(self).matchers == old(self).matchers,
            final(self).session_id == old(self).session_id,
            final(self).model() == armed(old(self).steps_view(), old(self).session_view(), old(self).model(), now),
            final(self).index <= final(self).steps@.len(),
            final(self).buffer@.len() <= old(self).buffer@.len(),
    {
        let ghost sv = self.steps_view();
        let ghost sess = self.session_view();
        let ghost goal = armed(sv, sess, self.model(), now);
        let ghost buf0 = self.buffer@;
        let ghost dl0 = self.deadline;
        proof {
            lemma_arm_parks(sv, sess, self.index as int);
        }
        loop
            invariant_except_break
                self.index <= self.steps@.len(),
                self.steps == old(self).steps,
                self.matchers == old(self).matchers,
                self.session_id == old(self).session_id,
                sv == self.steps_view(),
                sess == self.session_view(),
                self.buffer@ == buf0,
                self.deadline == dl0,
                goal == armed(sv, sess, self.model(), now),
                buf0.len() <= old(self).buffer@.len(),
            ensures
                self.steps == old(self).steps,
                self.matchers == old(self).matchers,
                self.session_id == old(self).session_id,
                self.model() == goal,
                self.index <= self.steps@.len(),
                self.buffer@.len() <= old(self).buffer@.len(),
            decreases self.steps@.len() - self.index,
        {
            if self.index >= self.steps.len() {
                let i = self.index;
                self.emit(i, "complete");
                assert(self.model().effects =~= goal.effects);
                break;
            }
            let i = self.index;
            let kind = self.steps[i].kind;
            assert(sv[i as int] == self.steps@[i as int]@);
            match kind {
                StepKind::Send => {
                    let ghost st = self.model();
                    let ghost (j, e) = arm_from(sv, sess, i as int + 1);
                    self.fire_send(i);
                    self.index = i + 1;
                    assert(st.effects + (send_effects(sv[i as int].send) + e) =~= self.model().effects + e);
                },
                _ => {
                    let t = self.steps[i].timeout_ms;
                    self.deadline = if now > u64::MAX - t {
                        u64::MAX
                    } else {
                        now + t
                    };
                    self.buffer = Vec::new();
                    self.emit(i, "running");
                    assert(self.model().buffer =~= goal.buffer);
                    assert(self.model().effects =~= goal.effects);
                    break;
                },
            }
        }
    }

    /// A runner for `steps` in session `session_id`, armed at time `now_ms`:
    /// leading `send` steps are queued at once, then the runner parks on the
    /// first `expect`/`wait` step (or completes).
    pub fn new(session_id: String, steps: Vec<LoginStep>, now_ms: u64) -> (r: LoginRunner)
        ensures
            r.wf(),
            r.steps_view() == step_views(steps@),
            r.session_view() == session_id@,
            r.model() == started(step_views(steps@), session_id@, now_ms),
    {
        let mut matchers: Vec<Matcher> = Vec::new();
        let mut i: usize = 0;
        while i < steps.len()
            invariant
                i <= steps@.len(),
                matchers@.len() == i,
                forall|k: int|
                    0 <= k < i ==> (#[trigger] matchers@[k])@ == matcher_of(steps@[k].expect@, steps@[k].is_regex),
            decreases steps.len() - i,
        {
            let m = Matcher::build(steps[i].expect.as_str(), steps[i].is_regex, session_id.as_str());
            matchers.push(m);
            i = i + 1;
        }
        let mut r = LoginRunner {
            steps,
            matchers,
            session_id,
            index: 0,
            buffer: Vec::new(),
            deadline: now_ms,
            effects: Vec::new(),
        };
        proof {
            assert(effect_views(r.effects@) =~= Seq::<EffectView>::empty());
            assert(r.buffer@ =~= Seq::<u8>::empty());
            assert(r.model() == RunnerModel { index: 0, buffer: Seq::empty(), deadline: now_ms, effects: Seq::empty() });
            lemma_arm_parks(r.steps_view(), r.session_view(), 0);
        }
        r.arm(now_ms);
        r
    }

    /// Whether the script has finished (completed or timed out).
    pub fn is_finished(&self) -> (b: bool)
        requires
            self.wf(),
        ensures
            b == (self.model().index >= self.steps_view().len()),
    {
        self.index >= self.steps.len()
    }

    /// Hands over the queued effects, oldest first.
    pub fn take_effects(&mut self) -> (r: Vec<LoginEffect>)
        ensures
            effect_views(r@) == old(self).model().effects,
            final(self).model() == (RunnerModel { effects: Seq::empty(), ..old(self).model() }),
            final(self).wf() == old(self).wf(),
            final(self).steps_view() == old(self).steps_view(),
            final(self).session_view() == old(self).session_view(),
    {
        let mut r: Vec<LoginEffect> = Vec::new();
        std::mem::swap(&mut self.effects, &mut r);
        assert(effect_views(self.effects@) =~= Seq::<EffectView>::empty());
        r
    }

    /// Timer tick at time `now_ms`: a `wait` whose pause is over moves on
    /// (firing the `send` steps after it); an `expect` past its deadline ends
    /// the script with a `timeout` event. Returns whether the script is
    /// finished.
    pub fn check_timeout(&mut self, now_ms: u64) -> (done: bool)
        requires
            old(self).wf(),
        ensures
            final(self).wf(),
            final(self).steps_view() == old(self).steps_view(),
            final(self).session_view() == old(self).session_view(),
            (final(self).model(), done) == ticked(old(self).steps_view(), old(self).session_view(), old(self).model(), now_ms),
    {
        if self.index >= self.steps.len() {
            return true;
        }
        if now_ms <= self.deadline {
            return false;
        }
        let i = self.index;
        assert(self.steps_view()[i as int] == self.steps@[i as int]@);
        if self.steps[i].kind == StepKind::Wait {
            self.index = i + 1;
            proof {
                lemma_arm_parks(self.steps_view(), self.session_view(), i + 1);
            }
            self.arm(now_ms);
        } else {
            self.index = self.steps.len();
            self.emit(i, "timeout");
        }
        self.index >= self.steps.len()
    }

    /// Output `data` arrives at time `now_ms`. Only an `expect` step reads
    /// it: past its deadline the script times out; otherwise the output is
    /// added to the (bounded) buffer and, when the step's pattern occurs in
    /// the ANSI-stripped buffer, the step's `send` is queued and the next
    /// step armed.
    pub fn feed(&mut self, data: &[u8], now_ms: u64)
        requires
            old(self).wf(),
        ensures
            final(self).wf(),
            final(self).steps_view() == old(self).steps_view(),
            final(self).session_view() == old(self).session_view(),
            final(self).model() == fed(old(self).steps_view(), old(self).session_view(), old(self).model(), data@, now_ms),
    {
        if self.index >= self.steps.len() {
            return;
        }
        let i = self.index;
        assert(self.steps_view()[i as int] == self.steps@[i as int]@);
        if self.steps[i].kind != StepKind::Expect {
            return;
        }
        if now_ms > self.deadline {
            self.index = self.steps.len();
            self.emit(i, "timeout");
            return;
        }
        let ghost joined = self.buffer@ + data@;
        let mut k: usize = 0;
        let ghost b0 = self.buffer@;
        while k < data.len()
            invariant
                k <= data@.len(),
                self.buffer@ == b0 + data@.take(k as int),
                self.steps == old(self).steps,
                self.matchers == old(self).matchers,
                self.session_id == old(self).session_id,
                self.index == old(self).index,
                self.deadline == old(self).deadline,
                self.effects == old(self).effects,
            decreases data.len() - k,
        {
            self.buffer.push(data[k]);
            assert(b0 + data@.take(k + 1) =~= (b0 + data@.take(k as int)).push(data@[k as int]));
            k = k + 1;
        }
        assert(data@.take(k as int) =~= data@);
        let n = self.buffer.len();
        if n > MAX_BUF {
            let mut kept: Vec<u8> = Vec::new();
            let mut q = n - MAX_BUF;
            while q < n
                invariant
                    n > MAX_BUF,
                    n - MAX_BUF <= q <= n,
                    n == self.buffer@.len(),
                    kept@ == self.buffer@.subrange(n - MAX_BUF, q as int),
                decreases n - q,
            {
                kept.push(self.buffer[q]);
                assert(self.buffer@.subrange(n - MAX_BUF, q + 1) =~= self.buffer@.subrange(n - MAX_BUF, q as int).push(self.buffer@[q as int]));
                q = q + 1;
            }
            assert(self.buffer@.skip(n - MAX_BUF) =~= kept@);
            self.buffer = kept;
        }
        assert(self.buffer@ == capped(joined));
        let stripped = strip_ansi(self.buffer.as_slice());
        if self.matchers[i].is_match(stripped.as_str()) {
            self.fire_send(i);
            self.index = i + 1;
            proof {
                lemma_arm_parks(self.steps_view(), self.session_view(), i + 1);
            }
            self.arm(now_ms);
        }
    }
}

/// Once a script has finished, output and timer ticks change nothing and a
/// tick reports it finished.
pub proof fn lemma_finished_is_final(steps: Seq<StepView>, session: Seq<char>, st: RunnerModel, data: Seq<u8>, now: u64)
    requires
        st.index >= steps.len(),
    ensures
        fed(steps, session, st, data, now) == st,
        ticked(steps, session, st, now) == (st, true),
{
}

/// The runner only ever appends effects: what was queued before a call is
/// still queued, first, after it.
pub proof fn lemma_effects_append_only(steps: Seq<StepView>, session: Seq<char>, st: RunnerModel, data: Seq<u8>, now: u64)
    ensures
        fed(steps, session, st, data, now).effects.take(st.effects.len() as int) == st.effects,
        ticked(steps, session, st, now).0.effects.take(st.effects.len() as int) == st.effects,
        st.effects.len() <= fed(steps, session, st, data, now).effects.len(),
        st.effects.len() <= ticked(steps, session, st, now).0.effects.len(),
{
    let n = st.effects.len() as int;
    assert(st.effects.take(n) =~= st.effects);
    if 0 <= st.index < steps.len() {
        let step = steps[st.index];
        let t = timed_out(steps, session, st);
        assert(t.effects.take(n) =~= st.effects);
        let buf = capped(st.buffer + data);
        let s1 = RunnerModel { index: st.index + 1, buffer: buf, effects: st.effects + send_effects(step.send), ..st };
        let (j, e) = arm_from(steps, session, s1.index);
        assert(armed(steps, session, s1, now).effects =~= st.effects + (send_effects(step.send) + e));
        assert((st.effects + (send_effects(step.send) + e)).take(n) =~= st.effects);
        let s2 = RunnerModel { index: st.index + 1, ..st };
        let (j2, e2) = arm_from(steps, session, s2.index);
        assert(armed(steps, session, s2, now).effects =~= st.effects + e2);
        assert((st.effects + e2).take(n) =~= st.effects);
    }
}

/// What a `send` step sends: its decoded bytes, followed by one carriage
/// return (Enter) unless they already end in CR or LF; nothing when they
/// are empty.
pub proof fn lemma_send_enter(send: Seq<char>)
    ensures
        ({
            let b = unescape(send);
            let p = send_payload(send);
            &&& b.len() == 0 ==> p.len() == 0
            &&& b.len() > 0 ==> p.last() == 13u8 || p.last() == 10u8
            &&& p.take(b.len() as int) == b
            &&& b.len() > 0 && (b.last() == 13u8 || b.last() == 10u8) ==> p == b
            &&& b.len() > 0 && b.last() != 13u8 && b.last() != 10u8 ==> p == b.push(13u8)
        }),
{
    let b = unescape(send);
    assert(b.push(13u8).take(b.len() as int) =~= b);
    assert(b.take(b.len() as int) =~= b);
}

} // verus!
