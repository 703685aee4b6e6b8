//! Removal of ANSI/VT escape sequences from terminal output.
//!
//! [`AnsiStripper`] is the streaming form used by the session logger: it
//! parks its state between calls so a sequence split across chunks is still
//! removed. [`strip_ansi`] is the one-shot form used by the login-script and
//! trigger matchers.
use vstd::prelude::*;
use crate::text::{decode_lossy, lossy};

verus! {

// ---------------------------------------------------------------------------
// Streaming stripper
// ---------------------------------------------------------------------------

/// Where the stripper stands inside an escape sequence.
#[derive(Clone, Copy, Debug, PartialEq, Eq, Structural)]
pub enum StripState {
    /// Plain text.
    Normal,
    /// Just saw ESC; waiting for the introducer.
    AfterEsc,
    /// Inside a CSI (ESC `[`); consume until a final byte 0x40..=0x7e.
    Csi,
    /// Inside an OSC-like string; consume until BEL or ESC.
    Osc,
    /// Inside an OSC and just saw ESC: the next byte ends the sequence.
    OscEsc,
}

/// Whether the logger keeps byte `b` when it appears in plain text.
pub open spec fn kept_byte(b: u8) -> bool {
    b >= 0x20 || b == 0x0a || b == 0x0d || b == 0x09 || b == 0x08
}

/// One step of the stripper: the next state and the byte it emits, if any.
pub open spec fn strip_step(st: StripState, b: u8) -> (StripState, Option<u8>) {
    match st {
        StripState::Normal => if b == 0x1b {
            (StripState::AfterEsc, None)
        } else if kept_byte(b) {
            (StripState::Normal, Some(b))
        } else {
            (StripState::Normal, None)
        },
        // ESC `\` (a string terminator outside a string) is just dropped.
        StripState::AfterEsc => if b == 0x5b {
            (StripState::Csi, None)
        } else if b == 0x5d || b == 0x50 || b == 0x58 || b == 0x5e || b == 0x5f {
            (StripState::Osc, None)
        } else {
            (StripState::Normal, None)
        },
        StripState::Csi => if 0x40 <= b <= 0x7e {
            (StripState::Normal, None)
        } else {
            (StripState::Csi, None)
        },
        StripState::Osc => if b == 0x07 {
            (StripState::Normal, None)
        } else if b == 0x1b {
            (StripState::OscEsc, None)
        } else {
            (StripState::Osc, None)
        },
        StripState::OscEsc => (StripState::Normal, None),
    }
}

/// The bytes of an optional emission.
pub open spec fn emitted(o: Option<u8>) -> Seq<u8> {
    match o {
        Some(b) => seq![b],
        None => Seq::empty(),
    }
}

/// Runs the stripper from `st` over `data`: the final state and the kept bytes.
pub open spec fn strip_run(st: StripState, data: Seq<u8>) -> (StripState, Seq<u8>)
    decreases data.len(),
{
    if data.len() == 0 {
        (st, Seq::empty())
    } else {
        let (st1, o) = strip_step(st, data[0]);
        let (st2, rest) = strip_run(st1, data.drop_first());
        (st2, emitted(o) + rest)
    }
}

/// Streaming ANSI stripper; the state carries over between chunks.
pub struct AnsiStripper {
    pub state: StripState,
}

impl AnsiStripper {
    /// A stripper positioned in plain text.
    pub fn new() -> (r: Self)
        ensures
            r.state == StripState::Normal,
    {
        AnsiStripper { state: StripState::Normal }
    }

    /// Strips one chunk, returning the kept bytes.
    pub fn strip(&mut self, data: &[u8]) -> (out: Vec<u8>)
        ensures
            (final(self).state, out@) == strip_run(old(self).state, data@),
    {
        let mut out: Vec<u8> = Vec::new();
        let mut i: usize = 0;
        let ghost st0 = self.state;
        assert(data@.skip(0) =~= data@);
        assert(Seq::<u8>::empty() + strip_run(st0, data@).1 =~= strip_run(st0, data@).1);
        while i < data.len()
            invariant
                i <= data@.len(),
                strip_run(st0, data@) == ({
                    let (sf, rest) = strip_run(self.state, data@.skip(i as int));
                    (sf, out@ + rest)
                }),
            decreases data.len() - i,
        {
            let b = data[i];
            let ghost before = self.state;
            let ghost out_before = out@;
            assert(data@.skip(i as int).drop_first() =~= data@.skip(i + 1));
            match self.state {
                StripState::Normal => {
                    if b == 0x1b {
                        self.state = StripState::AfterEsc;
                    } else if b >= 0x20 || b == 0x0a || b == 0x0d || b == 0x09 || b == 0x08 {
                        out.push(b);
                    }
                },
                StripState::AfterEsc => {
                    if b == 0x5b {
                        self.state = StripState::Csi;
                    } else if b == 0x5d || b == 0x50 || b == 0x58 || b == 0x5e || b
                        == 0x5f {
                        self.state = StripState::Osc;
                    } else {
                        self.state = StripState::Normal;
                    }
                },
                StripState::Csi => {
                    if 0x40 <= b && b <= 0x7e {
                        self.state = StripState::Normal;
                    }
                },
                StripState::Osc => {
                    if b == 0x07 {
                        self.state = StripState::Normal;
                    } else if b == 0x1b {
                        self.state = StripState::OscEsc;
                    }
                },
                StripState::OscEsc => {
                    self.state = StripState::Normal;
                },
            }
            proof {
                let (s1, o) = strip_step(before, b);
                assert(s1 == self.state);
                assert(out@ == out_before + emitted(o));
                let (sf, rest) = strip_run(self.state, data@.skip(i + 1));
                assert(out_before + (emitted(o) + rest) =~= out@ + rest);
            }
            i = i + 1;
        }
        assert(data@.skip(i as int) =~= Seq::<u8>::empty());
        assert(out@ + Seq::<u8>::empty() =~= out@);
        out
    }
}

/// Chunking law: stripping `a` and then `b` (with the state carried over)
/// gives the same final state and the same bytes as stripping `a + b` at once.
pub proof fn lemma_strip_chunked(st: StripState, a: Seq<u8>, b: Seq<u8>)
    ensures
        strip_run(st, a + b) == ({
            let (s1, o1) = strip_run(st, a);
            let (s2, o2) = strip_run(s1, b);
            (s2, o1 + o2)
        }),
    decreases a.len(),
{
    if a.len() == 0 {
        assert(a + b =~= b);
        assert(Seq::<u8>::empty() + strip_run(st, b).1 =~= strip_run(st, b).1);
    } else {
        let (st1, o) = strip_step(st, a[0]);
        assert((a + b).drop_first() =~= a.drop_first() + b);
        lemma_strip_chunked(st1, a.drop_first(), b);
        let (s1, o1) = strip_run(st1, a.drop_first());
        let (s2, o2) = strip_run(s1, b);
        assert(emitted(o) + (o1 + o2) =~= (emitted(o) + o1) + o2);
    }
}

/// Output law: the stripper never emits ESC or any control byte other than
/// `\n`, `\r`, `\t` and backspace.
pub proof fn lemma_strip_output_clean(st: StripState, data: Seq<u8>)
    ensures
        forall|k: int|
            0 <= k < strip_run(st, data).1.len() ==> kept_byte(#[trigger] strip_run(st, data).1[k]),
    decreases data.len(),
{
    if data.len() > 0 {
        let (st1, o) = strip_step(st, data[0]);
        lemma_strip_output_clean(st1, data.drop_first());
        let rest = strip_run(st1, data.drop_first()).1;
        let out = emitted(o) + rest;
        assert forall|k: int| 0 <= k < out.len() implies kept_byte(#[trigger] out[k]) by {
            if k < emitted(o).len() {
            } else {
                assert(out[k] == rest[k - emitted(o).len()]);
            }
        }
    }
}

/// Pass-through law: from plain text, a chunk made only of kept bytes is
/// emitted unchanged and leaves the stripper in plain text.
pub proof fn lemma_strip_plain_passthrough(data: Seq<u8>)
    requires
        forall|k: int| 0 <= k < data.len() ==> kept_byte(#[trigger] data[k]),
    ensures
        strip_run(StripState::Normal, data) == (StripState::Normal, data),
    decreases data.len(),
{
    if data.len() > 0 {
        assert(kept_byte(data[0]));
        let t = data.drop_first();
        assert forall|k: int| 0 <= k < t.len() implies kept_byte(#[trigger] t[k]) by {
            assert(t[k] == data[k + 1]);
        }
        lemma_strip_plain_passthrough(t);
        assert(seq![data[0]] + t =~= data);
    }
}

// ---------------------------------------------------------------------------
// One-shot stripper (login scripts and triggers)
// ---------------------------------------------------------------------------

/// Index just past the end of a CSI body starting at `i` (the final byte
/// 0x40..=0x7e included), or `b.len()` when unterminated.
pub open spec fn csi_end(b: Seq<u8>, i: int) -> int
    decreases b.len() - i,
{
    if i >= b.len() {
        b.len() as int
    } else if 0x40 <= b[i] <= 0x7e {
        i + 1
    } else {
        csi_end(b, i + 1)
    }
}

/// Index just past an OSC body starting at `i`: after BEL or ESC `\`, or
/// `b.len()` when unterminated.
pub open spec fn osc_end(b: Seq<u8>, i: int) -> int
    decreases b.len() - i,
{
    if i >= b.len() {
        b.len() as int
    } else if b[i] == 0x07 {
        i + 1
    } else if b[i] == 0x1b && i + 1 < b.len() && b[i + 1] == 0x5c {
        i + 2
    } else {
        osc_end(b, i + 1)
    }
}

proof fn lemma_csi_end(b: Seq<u8>, i: int)
    requires
        0 <= i <= b.len(),
    ensures
        i <= csi_end(b, i) <= b.len(),
        i < b.len() ==> i < csi_end(b, i),
    decreases b.len() - i,
{
    if i < b.len() && !(0x40 <= b[i] <= 0x7e) {
        lemma_csi_end(b, i + 1);
    }
}

proof fn lemma_osc_end(b: Seq<u8>, i: int)
    requires
        0 <= i <= b.len(),
    ensures
        i <= osc_end(b, i) <= b.len(),
        i < b.len() ==> i < osc_end(b, i),
    decreases b.len() - i,
{
    if i < b.len() && b[i] != 0x07 && !(b[i] == 0x1b && i + 1 < b.len() && b[i + 1] == 0x5c) {
        lemma_osc_end(b, i + 1);
    }
}

/// Position after the escape sequence or plain byte at `i`, and whether the
/// byte at `i` is kept.
pub open spec fn strip_once_next(b: Seq<u8>, i: int) -> (int, bool) {
    if b[i] == 0x1b && i + 1 < b.len() {
        if b[i + 1] == 0x5b {
            (csi_end(b, i + 2), false)
        } else if b[i + 1] == 0x5d {
            (osc_end(b, i + 2), false)
        } else {
            (i + 2, false)
        }
    } else {
        (i + 1, true)
    }
}

/// The bytes of `b` from position `i` on with CSI and OSC sequences, and
/// two-byte ESC sequences, removed.
pub open spec fn strip_once_from(b: Seq<u8>, i: int) -> Seq<u8>
    decreases b.len() - i,
{
    if i < 0 || i >= b.len() {
        Seq::empty()
    } else {
        let (j, keep) = strip_once_next(b, i);
        if j <= i || j > b.len() {
            Seq::empty()
        } else if keep {
            seq![b[i]] + strip_once_from(b, j)
        } else {
            strip_once_from(b, j)
        }
    }
}

/// The escape-free bytes of `b`.
pub open spec fn strip_once(b: Seq<u8>) -> Seq<u8> {
    strip_once_from(b, 0)
}

/// Removes CSI/OSC escape sequences from `bytes` (bytes level).
pub fn strip_ansi_bytes(bytes: &[u8]) -> (out: Vec<u8>)
    ensures
        out@ == strip_once(bytes@),
{
    let n = bytes.len();
    let mut out: Vec<u8> = Vec::new();
    let mut i: usize = 0;
    while i < n
        invariant
            n == bytes@.len(),
            i <= n,
            strip_once(bytes@) == out@ + strip_once_from(bytes@, i as int),
        decreases n - i,
    {
        let b = bytes[i];
        let ghost old_out = out@;
        if b == 0x1b && i + 1 < n {
            proof {
                lemma_csi_end(bytes@, i + 2);
                lemma_osc_end(bytes@, i + 2);
            }
            let next = bytes[i + 1];
            if next == 0x5b {
                let mut j = i + 2;
                while j < n && !(bytes[j] >= 0x40 && bytes[j] <= 0x7e)
                    invariant
                        i + 2 <= j <= n,
                        n == bytes@.len(),
                        csi_end(bytes@, i + 2) == csi_end(bytes@, j as int),
                    decreases n - j,
                {
                    j = j + 1;
                }
                if j < n {
                    j = j + 1;
                }
                i = j;
            } else if next == 0x5d {
                let mut j = i + 2;
                loop
                    invariant_except_break
                        i + 2 <= j <= n,
                        n == bytes@.len(),
                        osc_end(bytes@, i + 2) == osc_end(bytes@, j as int),
                    ensures
                        j == osc_end(bytes@, i + 2),
                        j <= n,
                    decreases n - j,
                {
                    if j >= n {
                        break;
                    }
                    if bytes[j] == 0x07 {
                        j = j + 1;
                        break;
                    }
                    if bytes[j] == 0x1b && j + 1 < n && bytes[j + 1] == 0x5c {
                        j = j + 2;
                        break;
                    }
                    j = j + 1;
                }
                i = j;
            } else {
                i = i + 2;
            }
        } else {
            out.push(b);
            assert(old_out + (seq![b] + strip_once_from(bytes@, i + 1)) =~= out@
                + strip_once_from(bytes@, i + 1));
            i = i + 1;
        }
    }
    assert(out@ + Seq::<u8>::empty() =~= out@);
    out
}

/// Removes CSI/OSC escape sequences and decodes the rest as lossy UTF-8.
pub fn strip_ansi(bytes: &[u8]) -> (s: String)
    ensures
        s@ == lossy(strip_once(bytes@)),
        !bytes@.contains(0x1bu8) && vstd::utf8::valid_utf8(bytes@) ==> s@ == vstd::utf8::decode_utf8(bytes@),
{
    let out = strip_ansi_bytes(bytes);
    proof {
        lemma_no_escape_kept(bytes@);
    }
    decode_lossy(&out)
}

proof fn lemma_no_escape_kept_from(b: Seq<u8>, i: int)
    requires
        0 <= i <= b.len(),
        !b.contains(0x1bu8),
    ensures
        strip_once_from(b, i) == b.skip(i),
    decreases b.len() - i,
{
    if i < b.len() {
        assert(b[i] != 0x1b) by {
            if b[i] == 0x1b {
                assert(b.contains(0x1bu8));
            }
        }
        lemma_no_escape_kept_from(b, i + 1);
        assert(seq![b[i]] + b.skip(i + 1) =~= b.skip(i));
    } else {
        assert(b.skip(i) =~= Seq::<u8>::empty());
    }
}

/// Bytes without an ESC pass the one-shot stripper unchanged.
pub proof fn lemma_no_escape_kept(b: Seq<u8>)
    ensures
        !b.contains(0x1bu8) ==> strip_once(b) == b,
{
    if !b.contains(0x1bu8) {
        lemma_no_escape_kept_from(b, 0);
        assert(b.skip(0) =~= b);
    }
}

/// A byte that ends a CSI sequence (its final byte).
pub open spec fn csi_final(b: u8) -> bool {
    0x40 <= b && b <= 0x7e
}

proof fn lemma_csi_body(params: Seq<u8>, fin: u8, data: Seq<u8>)
    requires
        csi_final(fin),
        forall|k: int| 0 <= k < params.len() ==> !csi_final(#[trigger] params[k]),
    ensures
        strip_run(StripState::Csi, params + seq![fin] + data) == strip_run(StripState::Normal, data),
    decreases params.len(),
{
    let all = params + seq![fin] + data;
    if params.len() == 0 {
        assert(all =~= seq![fin] + data);
        assert(all.drop_first() =~= data);
        assert(Seq::<u8>::empty() + strip_run(StripState::Normal, data).1 =~= strip_run(StripState::Normal, data).1);
    } else {
        let t = params.drop_first();
        assert(!csi_final(params[0]));
        assert forall|k: int| 0 <= k < t.len() implies !csi_final(#[trigger] t[k]) by {
            assert(t[k] == params[k + 1]);
        }
        lemma_csi_body(t, fin, data);
        assert(all.drop_first() =~= t + seq![fin] + data);
        assert(all[0] == params[0]);
        let r = strip_run(StripState::Csi, t + seq![fin] + data);
        assert(Seq::<u8>::empty() + r.1 =~= r.1);
    }
}

/// The log stripper removes a CSI sequence whole — ESC `[`, any parameter
/// and intermediate bytes (none in 0x40..=0x7e), then the final byte in
/// 0x40..=0x7e — and is back in plain text right after it: what follows is
/// kept as if the sequence had never been there.
pub proof fn lemma_csi_removed(params: Seq<u8>, fin: u8, data: Seq<u8>)
    requires
        csi_final(fin),
        forall|k: int| 0 <= k < params.len() ==> !csi_final(#[trigger] params[k]),
    ensures
        strip_run(StripState::Normal, seq![0x1bu8, 0x5bu8] + params + seq![fin] + data) == strip_run(
            StripState::Normal,
            data,
        ),
{
    let all = seq![0x1bu8, 0x5bu8] + params + seq![fin] + data;
    let x = params + seq![fin] + data;
    lemma_csi_body(params, fin, data);
    let r = strip_run(StripState::Normal, data);
    assert(strip_run(StripState::Csi, x) == r);
    let y = seq![0x5bu8] + x;
    assert(y.drop_first() =~= x);
    assert(y[0] == 0x5bu8);
    assert(strip_step(StripState::AfterEsc, 0x5bu8) == (StripState::Csi, None::<u8>));
    assert(Seq::<u8>::empty() + r.1 =~= r.1);
    assert(strip_run(StripState::AfterEsc, y) == r);
    assert(all =~= seq![0x1bu8] + y);
    assert(all.drop_first() =~= y);
    assert(all[0] == 0x1bu8);
    assert(strip_step(StripState::Normal, 0x1bu8) == (StripState::AfterEsc, None::<u8>));
    assert(strip_run(StripState::Normal, all) == r);
}

proof fn lemma_csi_end_shift(p: Seq<u8>, d: Seq<u8>, i: int)
    requires
        0 <= i <= d.len(),
    ensures
        csi_end(p + d, p.len() + i) == p.len() + csi_end(d, i),
    decreases d.len() - i,
{
    let b = p + d;
    if i < d.len() {
        assert(b[p.len() + i] == d[i]);
        lemma_csi_end_shift(p, d, i + 1);
    }
}

proof fn lemma_osc_end_shift(p: Seq<u8>, d: Seq<u8>, i: int)
    requires
        0 <= i <= d.len(),
    ensures
        osc_end(p + d, p.len() + i) == p.len() + osc_end(d, i),
    decreases d.len() - i,
{
    let b = p + d;
    if i < d.len() {
        assert(b[p.len() + i] == d[i]);
        if i + 1 < d.len() {
            assert(b[p.len() + i + 1] == d[i + 1]);
        }
        lemma_osc_end_shift(p, d, i + 1);
    }
}

proof fn lemma_strip_once_shift(p: Seq<u8>, d: Seq<u8>, i: int)
    requires
        0 <= i <= d.len(),
    ensures
        strip_once_from(p + d, p.len() + i) == strip_once_from(d, i),
    decreases d.len() - i,
{
    let b = p + d;
    let n = p.len() as int;
    if i < d.len() {
        assert(b[n + i] == d[i]);
        if d[i] == 0x1b && i + 1 < d.len() {
            assert(b[n + i + 1] == d[i + 1]);
            lemma_csi_end_shift(p, d, i + 2);
            lemma_osc_end_shift(p, d, i + 2);
            lemma_csi_end(d, i + 2);
            lemma_osc_end(d, i + 2);
            let (j, keep) = strip_once_next(d, i);
            assert(strip_once_next(b, n + i) == (n + j, keep));
            lemma_strip_once_shift(p, d, j);
        } else {
            lemma_strip_once_shift(p, d, i + 1);
        }
    }
}

/// The one-shot stripper removes a CSI sequence whole (ESC `[`, parameter
/// bytes outside 0x40..=0x7e, one final byte in 0x40..=0x7e): what follows
/// is stripped as if the sequence had never been there.
pub proof fn lemma_csi_removed_once(params: Seq<u8>, fin: u8, data: Seq<u8>)
    requires
        csi_final(fin),
        forall|k: int| 0 <= k < params.len() ==> !csi_final(#[trigger] params[k]),
    ensures
        strip_once(seq![0x1bu8, 0x5bu8] + params + seq![fin] + data) == strip_once(data),
{
    let pre = seq![0x1bu8, 0x5bu8] + params + seq![fin];
    let b = pre + data;
    assert(seq![0x1bu8, 0x5bu8] + params + seq![fin] + data == b);
    let n = params.len() as int;
    assert forall|k: int| 2 <= k < 2 + n implies !csi_final(#[trigger] b[k]) by {
        assert(b[k] == params[k - 2]);
    }
    assert(b[2 + n] == fin);
    lemma_csi_end_params(b, 2, 2 + n);
    assert(b[0] == 0x1b && b[1] == 0x5b);
    lemma_strip_once_shift(pre, data, 0);
    assert(strip_once_from(b, 0) == strip_once_from(b, pre.len() as int));
}

proof fn lemma_csi_end_params(b: Seq<u8>, i: int, f: int)
    requires
        0 <= i <= f < b.len(),
        csi_final(b[f]),
        forall|k: int| i <= k < f ==> !csi_final(#[trigger] b[k]),
    ensures
        csi_end(b, i) == f + 1,
    decreases f - i,
{
    if i < f {
        assert(!csi_final(b[i]));
        lemma_csi_end_params(b, i + 1, f);
    }
}

/// A byte that may stand inside an OSC string (neither BEL nor ESC).
pub open spec fn osc_body_byte(b: u8) -> bool {
    b != 0x07 && b != 0x1b
}

proof fn lemma_osc_body(body: Seq<u8>, term: Seq<u8>, data: Seq<u8>)
    requires
        term == seq![0x07u8] || (term.len() == 2 && term[0] == 0x1bu8),
        forall|k: int| 0 <= k < body.len() ==> osc_body_byte(#[trigger] body[k]),
    ensures
        strip_run(StripState::Osc, body + term + data) == strip_run(StripState::Normal, data),
    decreases body.len(),
{
    let all = body + term + data;
    let r = strip_run(StripState::Normal, data);
    if body.len() == 0 {
        assert(all =~= term + data);
        if term == seq![0x07u8] {
            assert(all.drop_first() =~= data);
            assert(Seq::<u8>::empty() + r.1 =~= r.1);
        } else {
            assert(all.drop_first() =~= seq![term[1]] + data);
            assert(all.drop_first().drop_first() =~= data);
            assert((seq![term[1]] + data).drop_first() =~= data);
            assert(Seq::<u8>::empty() + r.1 =~= r.1);
            assert(strip_run(StripState::OscEsc, seq![term[1]] + data) == r);
        }
    } else {
        let t = body.drop_first();
        assert(osc_body_byte(body[0]));
        assert forall|k: int| 0 <= k < t.len() implies osc_body_byte(#[trigger] t[k]) by {
            assert(t[k] == body[k + 1]);
        }
        lemma_osc_body(t, term, data);
        assert(all.drop_first() =~= t + term + data);
        assert(all[0] == body[0]);
        assert(Seq::<u8>::empty() + r.1 =~= r.1);
    }
}

/// The log stripper removes an OSC string (a title, a hyperlink) whole —
/// ESC `]`, its text, then BEL or ESC and one more byte (the `\` of
/// ESC `\`) — and is back in plain text right after it.
pub proof fn lemma_osc_removed(body: Seq<u8>, term: Seq<u8>, data: Seq<u8>)
    requires
        term == seq![0x07u8] || term == seq![0x1bu8, 0x5cu8],
        forall|k: int| 0 <= k < body.len() ==> osc_body_byte(#[trigger] body[k]),
    ensures
        strip_run(StripState::Normal, seq![0x1bu8, 0x5du8] + body + term + data) == strip_run(StripState::Normal, data),
{
    let all = seq![0x1bu8, 0x5du8] + body + term + data;
    let x = body + term + data;
    lemma_osc_body(body, term, data);
    let r = strip_run(StripState::Normal, data);
    let y = seq![0x5du8] + x;
    assert(y.drop_first() =~= x);
    assert(y[0] == 0x5du8);
    assert(Seq::<u8>::empty() + r.1 =~= r.1);
    assert(strip_run(StripState::AfterEsc, y) == r);
    assert(all =~= seq![0x1bu8] + y);
    assert(all.drop_first() =~= y);
    assert(all[0] == 0x1bu8);
    assert(strip_run(StripState::Normal, all) == r);
}

} // verus!
