//! Telnet option negotiation (RFC 854 / 1091 / 1073): the IAC state
//! machine that separates terminal data from protocol commands and answers
//! the server's option requests.
use vstd::prelude::*;

verus! {

pub const IAC: u8 = 255;
pub const DONT: u8 = 254;
pub const DO: u8 = 253;
pub const WONT: u8 = 252;
pub const WILL: u8 = 251;
pub const SB: u8 = 250;
pub const SE: u8 = 240;
pub const OPT_ECHO: u8 = 1;
pub const OPT_SGA: u8 = 3;
pub const OPT_TTYPE: u8 = 24;
pub const OPT_NAWS: u8 = 31;
pub const TTYPE_SEND: u8 = 1;

/// Window-size subnegotiation: `IAC SB NAWS cols rows IAC SE`, both sizes
/// as big-endian 16-bit values.
pub open spec fn naws_bytes(cols: u16, rows: u16) -> Seq<u8> {
    seq![
        IAC,
        SB,
        OPT_NAWS,
        (cols / 256) as u8,
        (cols % 256) as u8,
        (rows / 256) as u8,
        (rows % 256) as u8,
        IAC,
        SE,
    ]
}

/// Whether `v` is `IAC SB NAWS <width> <height> IAC SE`, each size two
/// big-endian bytes, the width (columns) first (RFC 1073).
pub open spec fn naws_window(v: Seq<u8>, cols: u16, rows: u16) -> bool {
    &&& v.len() == 9
    &&& v[0] == 255u8 && v[1] == 250u8 && v[2] == 31u8
    &&& v[3] as int * 256 + v[4] as int == cols as int
    &&& v[5] as int * 256 + v[6] as int == rows as int
    &&& v[7] == 255u8 && v[8] == 240u8
}

/// The window-size report carries the width first, then the height.
pub proof fn lemma_naws_window(cols: u16, rows: u16)
    ensures
        naws_window(naws_bytes(cols, rows), cols, rows),
{
    let v = naws_bytes(cols, rows);
    assert((cols / 256) as u8 as int == cols as int / 256);
    assert((cols % 256) as u8 as int == cols as int % 256);
    assert((rows / 256) as u8 as int == rows as int / 256);
    assert((rows % 256) as u8 as int == rows as int % 256);
    assert(cols as int / 256 * 256 + cols as int % 256 == cols as int);
    assert(rows as int / 256 * 256 + rows as int % 256 == rows as int);
}

/// Builds the window-size subnegotiation.
pub fn naws_subneg(cols: u16, rows: u16) -> (v: Vec<u8>)
    ensures
        v@ == naws_bytes(cols, rows),
        naws_window(v@, cols, rows),
{
    proof {
        lemma_naws_window(cols, rows);
    }
    let v = vec![
        IAC,
        SB,
        OPT_NAWS,
        (cols / 256) as u8,
        (cols % 256) as u8,
        (rows / 256) as u8,
        (rows % 256) as u8,
        IAC,
        SE,
    ];
    assert(v@ =~= naws_bytes(cols, rows));
    v
}

/// The terminal type we announce.
pub open spec fn ttype_name() -> Seq<u8> {
    seq![120u8, 116, 101, 114, 109, 45, 50, 53, 54, 99, 111, 108, 111, 114]
}

/// `IAC SB TTYPE IS "xterm-256color" IAC SE`.
pub open spec fn ttype_is_bytes() -> Seq<u8> {
    seq![IAC, SB, OPT_TTYPE, 0u8] + ttype_name() + seq![IAC, SE]
}

/// Builds the terminal-type answer.
pub fn ttype_is_response() -> (v: Vec<u8>)
    ensures
        v@ == ttype_is_bytes(),
{
    let v = vec![
        IAC,
        SB,
        OPT_TTYPE,
        0u8,
        120u8,
        116,
        101,
        114,
        109,
        45,
        50,
        53,
        54,
        99,
        111,
        108,
        111,
        114,
        IAC,
        SE,
    ];
    assert(v@ =~= ttype_is_bytes());
    v
}

/// Answers to `IAC verb opt`: accept ECHO/SGA from the server, offer NAWS
/// (with the current size) and TTYPE, refuse everything else.
pub open spec fn verb_responses(verb: u8, opt: u8, cols: u16, rows: u16) -> Seq<Seq<u8>> {
    if verb == WILL {
        if opt == OPT_ECHO || opt == OPT_SGA {
            seq![seq![IAC, DO, opt]]
        } else {
            seq![seq![IAC, DONT, opt]]
        }
    } else if verb == DO {
        if opt == OPT_NAWS {
            seq![seq![IAC, WILL, OPT_NAWS], naws_bytes(cols, rows)]
        } else if opt == OPT_TTYPE {
            seq![seq![IAC, WILL, OPT_TTYPE]]
        } else {
            seq![seq![IAC, WONT, opt]]
        }
    } else if verb == WONT {
        seq![seq![IAC, DONT, opt]]
    } else if verb == DONT {
        seq![seq![IAC, WONT, opt]]
    } else {
        Seq::empty()
    }
}

/// Answers to a completed subnegotiation: a TTYPE SEND is answered with IS.
pub open spec fn subneg_responses(opt: u8, data: Seq<u8>) -> Seq<Seq<u8>> {
    if opt == OPT_TTYPE && data.len() > 0 && data[0] == TTYPE_SEND {
        seq![ttype_is_bytes()]
    } else {
        Seq::empty()
    }
}

/// Builds the answers to `IAC verb opt`.
pub fn handle_verb(verb: u8, opt: u8, responses: &mut Vec<Vec<u8>>, cols: u16, rows: u16)
    ensures
        final(responses)@.len() == old(responses)@.len() + verb_responses(
            verb,
            opt,
            cols,
            rows,
        ).len(),
        forall|k: int|
            0 <= k < old(responses)@.len() ==> final(responses)@[k] == old(responses)@[k],
        forall|k: int|
            0 <= k < verb_responses(verb, opt, cols, rows).len() ==> (#[trigger] final(responses)@[old(responses)@.len() + k])@
                == verb_responses(verb, opt, cols, rows)[k],
{
    if verb == WILL {
        if opt == OPT_ECHO || opt == OPT_SGA {
            responses.push(vec![IAC, DO, opt]);
        } else {
            responses.push(vec![IAC, DONT, opt]);
        }
    } else if verb == DO {
        if opt == OPT_NAWS {
            responses.push(vec![IAC, WILL, OPT_NAWS]);
            responses.push(naws_subneg(cols, rows));
        } else if opt == OPT_TTYPE {
            responses.push(vec![IAC, WILL, OPT_TTYPE]);
        } else {
            responses.push(vec![IAC, WONT, opt]);
        }
    } else if verb == WONT {
        responses.push(vec![IAC, DONT, opt]);
    } else if verb == DONT {
        responses.push(vec![IAC, WONT, opt]);
    }
    assert forall|k: int|
        0 <= k < verb_responses(verb, opt, cols, rows).len() implies (#[trigger] responses@[old(responses)@.len() + k])@
            == verb_responses(verb, opt, cols, rows)[k] by {
        let r = responses@[old(responses)@.len() + k]@;
        assert(r =~= verb_responses(verb, opt, cols, rows)[k]);
    }
}

/// Builds the answers to a completed subnegotiation.
pub fn handle_subneg(opt: u8, data: &Vec<u8>, responses: &mut Vec<Vec<u8>>)
    ensures
        final(responses)@.len() == old(responses)@.len() + subneg_responses(opt, data@).len(),
        forall|k: int|
            0 <= k < old(responses)@.len() ==> final(responses)@[k] == old(responses)@[k],
        forall|k: int|
            0 <= k < subneg_responses(opt, data@).len() ==> (#[trigger] final(responses)@[old(responses)@.len() + k])@
                == subneg_responses(opt, data@)[k],
{
    if opt == OPT_TTYPE && data.len() > 0 && data[0] == TTYPE_SEND {
        responses.push(ttype_is_response());
    }
}

/// Abstract parser state.
pub enum IacModel {
    Data,
    Iac,
    Verb(u8),
    Sb,
    SbData(u8, Seq<u8>),
    SbIac(u8, Seq<u8>),
}

/// Parser state; a subnegotiation's bytes are buffered until `IAC SE`.
pub enum IacState {
    /// Plain data.
    Data,
    /// Saw IAC.
    Iac,
    /// Saw IAC + WILL/WONT/DO/DONT; waiting for the option byte.
    IacVerb(u8),
    /// Saw IAC SB; waiting for the option byte.
    IacSb,
    /// Inside a subnegotiation for the option, with the bytes so far.
    IacSbData(u8, Vec<u8>),
    /// Saw IAC inside a subnegotiation (expecting SE).
    IacSbIac(u8, Vec<u8>),
}

impl View for IacState {
    type V = IacModel;

    open spec fn view(&self) -> IacModel {
        match self {
            IacState::Data => IacModel::Data,
            IacState::Iac => IacModel::Iac,
            IacState::IacVerb(v) => IacModel::Verb(*v),
            IacState::IacSb => IacModel::Sb,
            IacState::IacSbData(o, d) => IacModel::SbData(*o, d@),
            IacState::IacSbIac(o, d) => IacModel::SbIac(*o, d@),
        }
    }
}

/// One step: the next state, the data byte passed through (if any), and the
/// answers produced.
pub open spec fn iac_step(st: IacModel, b: u8, cols: u16, rows: u16) -> (
    IacModel,
    Option<u8>,
    Seq<Seq<u8>>,
) {
    match st {
        IacModel::Data => if b == IAC {
            (IacModel::Iac, None, Seq::empty())
        } else {
            (IacModel::Data, Some(b), Seq::empty())
        },
        IacModel::Iac => if b == IAC {
            (IacModel::Data, Some(IAC), Seq::empty())
        } else if b == WILL || b == WONT || b == DO || b == DONT {
            (IacModel::Verb(b), None, Seq::empty())
        } else if b == SB {
            (IacModel::Sb, None, Seq::empty())
        } else {
            (IacModel::Data, None, Seq::empty())
        },
        IacModel::Verb(v) => (IacModel::Data, None, verb_responses(v, b, cols, rows)),
        IacModel::Sb => (IacModel::SbData(b, Seq::empty()), None, Seq::empty()),
        IacModel::SbData(o, d) => if b == IAC {
            (IacModel::SbIac(o, d), None, Seq::empty())
        } else {
            (IacModel::SbData(o, d.push(b)), None, Seq::empty())
        },
        IacModel::SbIac(o, d) => if b == SE {
            (IacModel::Data, None, subneg_responses(o, d))
        } else if b == IAC {
            (IacModel::SbIac(o, d), None, Seq::empty())
        } else {
            (IacModel::SbData(o, d.push(IAC).push(b)), None, Seq::empty())
        },
    }
}

/// Bytes of an optional data byte.
pub open spec fn opt_bytes(o: Option<u8>) -> Seq<u8> {
    match o {
        Some(b) => seq![b],
        None => Seq::empty(),
    }
}

/// Runs the parser over `input`: final state, clean data, answers.
pub open spec fn iac_run(st: IacModel, input: Seq<u8>, cols: u16, rows: u16) -> (
    IacModel,
    Seq<u8>,
    Seq<Seq<u8>>,
)
    decreases input.len(),
{
    if input.len() == 0 {
        (st, Seq::empty(), Seq::empty())
    } else {
        let (s1, o, r) = iac_step(st, input[0], cols, rows);
        let (s2, c2, r2) = iac_run(s1, input.drop_first(), cols, rows);
        (s2, opt_bytes(o) + c2, r + r2)
    }
}

/// The views of a vector of byte vectors.
pub open spec fn views(v: Seq<Vec<u8>>) -> Seq<Seq<u8>> {
    Seq::new(v.len(), |i: int| v[i]@)
}

/// Processes one chunk: appends the clean data to `clean` and the answers
/// to `responses`, updating `state`.
pub fn process_bytes(
    input: &[u8],
    state: &mut IacState,
    clean: &mut Vec<u8>,
    responses: &mut Vec<Vec<u8>>,
    cols: u16,
    rows: u16,
)
    ensures
        ({
            let (sf, c, r) = iac_run(old(state)@, input@, cols, rows);
            &&& final(state)@ == sf
            &&& final(clean)@ == old(clean)@ + c
            &&& views(final(responses)@) == views(old(responses)@) + r
        }),
{
    let ghost st0 = state@;
    let ghost c0 = clean@;
    let ghost r0 = views(responses@);
    let mut i: usize = 0;
    assert(input@.skip(0) =~= input@);
    proof {
        let (sf, c, r) = iac_run(st0, input@, cols, rows);
        assert(c0 + c =~= clean@ + c);
        assert(r0 + r =~= views(responses@) + r);
    }
    while i < input.len()
        invariant
            i <= input@.len(),
            ({
                let (sf, c, r) = iac_run(st0, input@, cols, rows);
                let (sf2, c2, r2) = iac_run(state@, input@.skip(i as int), cols, rows);
                &&& sf == sf2
                &&& c0 + c == clean@ + c2
                &&& r0 + r == views(responses@) + r2
            }),
        decreases input.len() - i,
    {
        let b = input[i];
        let ghost sbefore = state@;
        let ghost cbefore = clean@;
        let ghost rbefore = views(responses@);
        let ghost rlen = responses@.len();
        assert(input@.skip(i as int).drop_first() =~= input@.skip(i + 1));
        let mut cur = IacState::Data;
        std::mem::swap(&mut cur, state);
        let next = match cur {
            IacState::Data => {
                if b == IAC {
                    IacState::Iac
                } else {
                    clean.push(b);
                    IacState::Data
                }
            },
            IacState::Iac => {
                if b == IAC {
                    clean.push(IAC);
                    IacState::Data
                } else if b == WILL || b == WONT || b == DO || b == DONT {
                    IacState::IacVerb(b)
                } else if b == SB {
                    IacState::IacSb
                } else {
                    IacState::Data
                }
            },
            IacState::IacVerb(verb) => {
                handle_verb(verb, b, responses, cols, rows);
                IacState::Data
            },
            IacState::IacSb => IacState::IacSbData(b, Vec::new()),
            IacState::IacSbData(opt, data) => {
                let mut data = data;
                if b == IAC {
                    IacState::IacSbIac(opt, data)
                } else {
                    data.push(b);
                    IacState::IacSbData(opt, data)
                }
            },
            IacState::IacSbIac(opt, data) => {
                if b == SE {
                    handle_subneg(opt, &data, responses);
                    IacState::Data
                } else if b == IAC {
                    IacState::IacSbIac(opt, data)
                } else {
                    let mut d = data;
                    d.push(IAC);
                    d.push(b);
                    IacState::IacSbData(opt, d)
                }
            },
        };
        *state = next;
        proof {
            let (s1, o, rr) = iac_step(sbefore, b, cols, rows);
            assert(state@ == s1) by {
                match sbefore {
                    IacModel::SbData(o2, d2) => {
                        assert(d2.push(b) =~= d2.push(b));
                    },
                    IacModel::SbIac(o2, d2) => {
                        assert(d2.push(IAC).push(b) =~= d2.push(IAC).push(b));
                    },
                    _ => {},
                }
            }
            assert(clean@ == cbefore + opt_bytes(o));
            assert(views(responses@) =~= rbefore + rr) by {
                assert(views(responses@).len() == rbefore.len() + rr.len());
                assert forall|k: int| 0 <= k < views(responses@).len() implies views(
                    responses@,
                )[k] == (rbefore + rr)[k] by {
                    if k >= rlen {
                        let kk = k - rlen;
                        assert(responses@[rlen + kk]@ == rr[kk]);
                    }
                }
            }
            let (sf2, c2, r2) = iac_run(state@, input@.skip(i + 1), cols, rows);
            assert(cbefore + (opt_bytes(o) + c2) =~= clean@ + c2);
            assert(rbefore + (rr + r2) =~= views(responses@) + r2);
        }
        i = i + 1;
    }
    proof {
        assert(input@.skip(i as int) =~= Seq::<u8>::empty());
        let (sf, c, r) = iac_run(st0, input@, cols, rows);
        assert(clean@ + Seq::<u8>::empty() =~= clean@);
        assert(views(responses@) + Seq::<Seq<u8>>::empty() =~= views(responses@));
    }
}

/// Chunking law: the parser's output over `a + b` is its output over `a`
/// followed by its output over `b` from the state `a` left it in — a
/// command split across two network reads is handled as if it arrived whole.
pub proof fn lemma_iac_chunked(st: IacModel, a: Seq<u8>, b: Seq<u8>, cols: u16, rows: u16)
    ensures
        iac_run(st, a + b, cols, rows) == ({
            let (s1, c1, r1) = iac_run(st, a, cols, rows);
            let (s2, c2, r2) = iac_run(s1, b, cols, rows);
            (s2, c1 + c2, r1 + r2)
        }),
    decreases a.len(),
{
    if a.len() == 0 {
        assert(a + b =~= b);
        let (s2, c2, r2) = iac_run(st, b, cols, rows);
        assert(Seq::<u8>::empty() + c2 =~= c2);
        assert(Seq::<Seq<u8>>::empty() + r2 =~= r2);
    } else {
        let (s1, o, r) = iac_step(st, a[0], cols, rows);
        assert((a + b).drop_first() =~= a.drop_first() + b);
        lemma_iac_chunked(s1, a.drop_first(), b, cols, rows);
        let (t1, c1, r1) = iac_run(s1, a.drop_first(), cols, rows);
        let (t2, c2, r2) = iac_run(t1, b, cols, rows);
        assert(opt_bytes(o) + (c1 + c2) =~= (opt_bytes(o) + c1) + c2);
        assert(r + (r1 + r2) =~= (r + r1) + r2);
    }
}

/// Data law: from the data state, input without IAC bytes passes through
/// unchanged and produces no answers.
pub proof fn lemma_iac_plain_data(input: Seq<u8>, cols: u16, rows: u16)
    requires
        forall|k: int| 0 <= k < input.len() ==> #[trigger] input[k] != IAC,
    ensures
        iac_run(IacModel::Data, input, cols, rows) == (IacModel::Data, input, Seq::<Seq<u8>>::empty()),
    decreases input.len(),
{
    if input.len() > 0 {
        assert(input[0] != IAC);
        let t = input.drop_first();
        assert forall|k: int| 0 <= k < t.len() implies #[trigger] t[k] != IAC by {
            assert(t[k] == input[k + 1]);
        }
        lemma_iac_plain_data(t, cols, rows);
        assert(seq![input[0]] + t =~= input);
        assert(Seq::<Seq<u8>>::empty() + Seq::<Seq<u8>>::empty() =~= Seq::<Seq<u8>>::empty());
    }
}

/// Asked `IAC DO NAWS`, the client agrees (`IAC WILL NAWS`) and then
/// reports its window, width before height; nothing reaches the data.
pub proof fn lemma_naws_reply(cols: u16, rows: u16)
    ensures
        ({
            let (st, clean, answers) = iac_run(IacModel::Data, seq![255u8, 253u8, 31u8], cols, rows);
            &&& st == IacModel::Data
            &&& clean.len() == 0
            &&& answers.len() == 2
            &&& answers[0] == seq![255u8, 251u8, 31u8]
            &&& naws_window(answers[1], cols, rows)
        }),
{
    let input = seq![255u8, 253u8, 31u8];
    assert(input.drop_first() =~= seq![253u8, 31u8]);
    assert(input.drop_first().drop_first() =~= seq![31u8]);
    assert(input.drop_first().drop_first().drop_first() =~= Seq::<u8>::empty());
    lemma_naws_window(cols, rows);
    let e = Seq::<u8>::empty();
    let r0 = iac_run(IacModel::Data, Seq::<u8>::empty(), cols, rows);
    assert(r0 == (IacModel::Data, e, Seq::<Seq<u8>>::empty()));
    let r1 = iac_run(IacModel::Verb(253u8), seq![31u8], cols, rows);
    assert(r1.0 == IacModel::Data);
    assert(r1.1 =~= e);
    assert(r1.2 =~= verb_responses(253u8, 31u8, cols, rows));
    let r2 = iac_run(IacModel::Iac, seq![253u8, 31u8], cols, rows);
    assert(r2.0 == IacModel::Data);
    assert(r2.1 =~= e);
    assert(r2.2 =~= verb_responses(253u8, 31u8, cols, rows));
    let r3 = iac_run(IacModel::Data, input, cols, rows);
    assert(r3.0 == IacModel::Data);
    assert(r3.1 =~= e);
    assert(r3.2 =~= seq![seq![IAC, WILL, OPT_NAWS], naws_bytes(cols, rows)]);
}

/// Whatever the server sends, every window-size report the client sends
/// (`IAC SB NAWS …`) carries the width first and the height second.
pub proof fn lemma_naws_answers_carry_window(st: IacModel, input: Seq<u8>, cols: u16, rows: u16)
    ensures
        forall|k: int|
            0 <= k < iac_run(st, input, cols, rows).2.len() && (#[trigger] iac_run(st, input, cols, rows).2[k]).len() >= 3
                && iac_run(st, input, cols, rows).2[k][1] == 250u8 && iac_run(st, input, cols, rows).2[k][2] == 31u8
                ==> naws_window(iac_run(st, input, cols, rows).2[k], cols, rows),
    decreases input.len(),
{
    if input.len() > 0 {
        let (s1, o, r) = iac_step(st, input[0], cols, rows);
        lemma_naws_answers_carry_window(s1, input.drop_first(), cols, rows);
        lemma_naws_window(cols, rows);
        let rr = iac_run(s1, input.drop_first(), cols, rows).2;
        let all = iac_run(st, input, cols, rows).2;
        assert(all == r + rr);
        assert(ttype_is_bytes()[2] == OPT_TTYPE);
        assert forall|k: int|
            0 <= k < all.len() && (#[trigger] all[k]).len() >= 3 && all[k][1] == 250u8 && all[k][2] == 31u8 implies naws_window(
            all[k],
            cols,
            rows,
        ) by {
            if k >= r.len() {
                assert(all[k] == rr[k - r.len()]);
            }
        }
    }
}

/// The answers to a three-byte command `IAC verb opt` from plain data.
pub open spec fn command_answers(verb: u8, opt: u8, cols: u16, rows: u16) -> Seq<Seq<u8>> {
    iac_run(IacModel::Data, seq![255u8, verb, opt], cols, rows).2
}

proof fn lemma_command_run(verb: u8, opt: u8, cols: u16, rows: u16)
    requires
        verb == 251 || verb == 252 || verb == 253 || verb == 254,
    ensures
        iac_run(IacModel::Data, seq![255u8, verb, opt], cols, rows) == (
            IacModel::Data,
            Seq::<u8>::empty(),
            verb_responses(verb, opt, cols, rows),
        ),
{
    let input = seq![255u8, verb, opt];
    let e = Seq::<u8>::empty();
    assert(input.drop_first() =~= seq![verb, opt]);
    assert(input.drop_first().drop_first() =~= seq![opt]);
    assert(input.drop_first().drop_first().drop_first() =~= e);
    assert(seq![opt].drop_first() =~= e);
    let r0 = iac_run(IacModel::Data, e, cols, rows);
    assert(r0 == (IacModel::Data, e, Seq::<Seq<u8>>::empty()));
    let r1 = iac_run(IacModel::Verb(verb), seq![opt], cols, rows);
    assert(r1.1 =~= e);
    assert(r1.2 =~= verb_responses(verb, opt, cols, rows));
    let r2 = iac_run(IacModel::Iac, seq![verb, opt], cols, rows);
    assert(r2.1 =~= e);
    assert(r2.2 =~= verb_responses(verb, opt, cols, rows));
    let r3 = iac_run(IacModel::Data, input, cols, rows);
    assert(r3.1 =~= e);
    assert(r3.2 =~= verb_responses(verb, opt, cols, rows));
}

/// The client's answers to option negotiation: it lets the server echo and
/// suppress go-ahead (`WILL` ECHO/SGA → `DO`) and refuses any other
/// server option (`DONT`); asked to do NAWS or TTYPE it agrees (`WILL`),
/// and refuses anything else (`WONT`); a `WONT` is acknowledged with `DONT`
/// and a `DONT` with `WONT`. Each answer is a single `IAC verb opt` for the
/// same option, except NAWS, which is followed by the window report.
pub proof fn lemma_negotiation_answers(opt: u8, cols: u16, rows: u16)
    ensures
        command_answers(251, opt, cols, rows) == (if opt == 1 || opt == 3 {
            seq![seq![255u8, 253u8, opt]]
        } else {
            seq![seq![255u8, 254u8, opt]]
        }),
        opt != 31 ==> command_answers(253, opt, cols, rows) == (if opt == 24 {
            seq![seq![255u8, 251u8, 24u8]]
        } else {
            seq![seq![255u8, 252u8, opt]]
        }),
        command_answers(252, opt, cols, rows) == seq![seq![255u8, 254u8, opt]],
        command_answers(254, opt, cols, rows) == seq![seq![255u8, 252u8, opt]],
{
    lemma_command_run(251, opt, cols, rows);
    lemma_command_run(252, opt, cols, rows);
    lemma_command_run(253, opt, cols, rows);
    lemma_command_run(254, opt, cols, rows);
}

/// A doubled IAC in the data stands for one data byte 255.
pub proof fn lemma_escaped_iac(cols: u16, rows: u16)
    ensures
        iac_run(IacModel::Data, seq![255u8, 255u8], cols, rows) == (IacModel::Data, seq![255u8], Seq::<Seq<u8>>::empty()),
{
    let input = seq![255u8, 255u8];
    assert(input.drop_first() =~= seq![255u8]);
    assert(input.drop_first().drop_first() =~= Seq::<u8>::empty());
    assert(seq![255u8].drop_first() =~= Seq::<u8>::empty());
    let r0 = iac_run(IacModel::Data, Seq::<u8>::empty(), cols, rows);
    assert(r0 == (IacModel::Data, Seq::<u8>::empty(), Seq::<Seq<u8>>::empty()));
    let r1 = iac_run(IacModel::Iac, seq![255u8], cols, rows);
    assert(r1.1 =~= seq![255u8]);
    assert(r1.2 =~= Seq::<Seq<u8>>::empty());
    let r2 = iac_run(IacModel::Data, input, cols, rows);
    assert(r2.1 =~= seq![255u8]);
    assert(r2.2 =~= Seq::<Seq<u8>>::empty());
}

} // verus!
