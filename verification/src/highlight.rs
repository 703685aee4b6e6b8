//! Keyword highlighting: ANSI true-colour codes injected around pattern
//! matches in the terminal byte stream. Rules apply in `sort_order`; for
//! any stretch of text the first rule that matches it wins, and later
//! matches that overlap an earlier one are ignored.
use vstd::prelude::*;
use vstd::string::StringSliceAdditionalSpecFns;
use vstd::utf8::{encode_utf8, is_char_boundary};
use crate::importers::common::{decimal, u32_decimal};
use crate::model::str_views;
use crate::pattern::{regex_compiles, regex_escape, regex_escaped, regex_find_spans, regex_spans, regex_valid};
use crate::text::{
    decode_lossy, find_from, owned, push_str, string_from_range, to_chars, trim_start_char,
    trim_start_char_range, lossy,
};

verus! {

/// A highlight rule.
#[derive(Debug, Clone)]
pub struct HighlightRule {
    pub id: i64,
    pub name: String,
    pub pattern: String,
    pub is_regex: bool,
    /// `"#RRGGBB"` or `None`.
    pub fg_color: Option<String>,
    pub bg_color: Option<String>,
    pub bold: bool,
    pub underline: bool,
    pub enabled: bool,
    pub sort_order: i32,
}

// ---------------------------------------------------------------------------
// Colours and SGR codes
// ---------------------------------------------------------------------------

/// Value of an ASCII hex digit byte.
pub open spec fn hex_digit_byte(b: u8) -> Option<u8> {
    if 48 <= b <= 57 {
        Some((b - 48) as u8)
    } else if 97 <= b <= 102 {
        Some((b - 87) as u8)
    } else if 65 <= b <= 70 {
        Some((b - 55) as u8)
    } else {
        None
    }
}

/// `u8::from_str_radix(_, 16)` of the two bytes `x y`: two hex digits, or
/// `+` and one hex digit.
pub open spec fn hex_field(x: u8, y: u8) -> Option<u8> {
    if x == 43u8 {
        hex_digit_byte(y)
    } else {
        match (hex_digit_byte(x), hex_digit_byte(y)) {
            (Some(a), Some(b)) => Some((a * 16 + b) as u8),
            _ => None,
        }
    }
}

/// The bytes of a colour with its leading `#`s removed.
pub open spec fn color_bytes(s: Seq<char>) -> Seq<u8> {
    encode_utf8(trim_start_char(s, '#'))
}

/// `#RRGGBB` (any number of leading `#`, case-insensitive hex) as RGB.
pub open spec fn hex_color(s: Seq<char>) -> Option<(u8, u8, u8)> {
    let b = color_bytes(s);
    if b.len() != 6 {
        None
    } else {
        match (hex_field(b[0], b[1]), hex_field(b[2], b[3]), hex_field(b[4], b[5])) {
            (Some(r), Some(g), Some(bl)) => Some((r, g, bl)),
            _ => None,
        }
    }
}

/// Colours whose fields can be cut out as parsing reaches them: not six
/// bytes long, or with a character boundary at byte 2 and, when the first
/// field parses, at byte 4.
pub open spec fn color_ok(s: Seq<char>) -> bool {
    let b = color_bytes(s);
    b.len() != 6 || (is_char_boundary(b, 2) && (hex_field(b[0], b[1]) is Some ==> is_char_boundary(b, 4)))
}

/// Whether a colour's fields can be cut out (see `color_ok`).
pub fn color_usable(hex: &str) -> (b: bool)
    ensures
        b == color_ok(hex@),
{
    let c = to_chars(hex);
    let n = c.len();
    let a = trim_start_char_range(&c, 0, n, '#');
    assert(c@.subrange(0, n as int) =~= c@);
    let h = string_from_range(&c, a, n);
    let bytes = h.as_str().as_bytes();
    if bytes.len() != 6 {
        return true;
    }
    proof {
        let bs = color_bytes(hex@);
        vstd::utf8::encode_utf8_valid_utf8(trim_start_char(hex@, '#'));
        vstd::utf8::is_char_boundary_iff_not_is_continuation_byte(bs, 2);
        vstd::utf8::is_char_boundary_iff_not_is_continuation_byte(bs, 4);
    }
    !(0x80 <= bytes[2] && bytes[2] <= 0xbf) && (hex_field_exec(bytes[0], bytes[1]).is_none() || !(0x80 <= bytes[4]
        && bytes[4] <= 0xbf))
}

fn hex_digit_exec(b: u8) -> (r: Option<u8>)
    ensures
        r == hex_digit_byte(b),
{
    if 48 <= b && b <= 57 {
        Some(b - 48)
    } else if 97 <= b && b <= 102 {
        Some(b - 87)
    } else if 65 <= b && b <= 70 {
        Some(b - 55)
    } else {
        None
    }
}

fn hex_field_exec(x: u8, y: u8) -> (r: Option<u8>)
    ensures
        r == hex_field(x, y),
{
    if x == 43u8 {
        return hex_digit_exec(y);
    }
    match (hex_digit_exec(x), hex_digit_exec(y)) {
        (Some(a), Some(b)) => Some(a * 16 + b),
        _ => None,
    }
}

/// Parses `#RRGGBB` into its three components.
pub fn parse_hex_color(hex: &str) -> (r: Option<(u8, u8, u8)>)
    requires
        color_ok(hex@),
    ensures
        r == hex_color(hex@),
{
    let c = to_chars(hex);
    let n = c.len();
    let a = trim_start_char_range(&c, 0, n, '#');
    assert(c@.subrange(0, n as int) =~= c@);
    let h = string_from_range(&c, a, n);
    let b = h.as_str().as_bytes();
    if b.len() != 6 {
        return None;
    }
    match (hex_field_exec(b[0], b[1]), hex_field_exec(b[2], b[3]), hex_field_exec(b[4], b[5])) {
        (Some(r), Some(g), Some(bl)) => Some((r, g, bl)),
        _ => None,
    }
}

/// `items` joined with `sep`.
pub open spec fn join(items: Seq<Seq<char>>, sep: Seq<char>) -> Seq<char>
    decreases items.len(),
{
    if items.len() == 0 {
        Seq::empty()
    } else if items.len() == 1 {
        items[0]
    } else {
        join(items.drop_last(), sep) + sep + items.last()
    }
}

/// The SGR parameter of a colour (`prefix` + `r;g;b`), when it parses.
pub open spec fn color_param(prefix: Seq<char>, color: Option<Seq<char>>) -> Seq<Seq<char>> {
    match color {
        Some(c) => match hex_color(c) {
            Some((r, g, b)) => seq![
                prefix + decimal(r as nat) + ";"@ + decimal(g as nat) + ";"@ + decimal(b as nat),
            ],
            None => Seq::empty(),
        },
        None => Seq::empty(),
    }
}

/// The SGR parameters of a style: bold, underline, foreground, background.
pub open spec fn open_params(bold: bool, underline: bool, fg: Option<Seq<char>>, bg: Option<Seq<char>>) -> Seq<Seq<char>> {
    (if bold {
        seq!["1"@]
    } else {
        Seq::empty()
    }) + (if underline {
        seq!["4"@]
    } else {
        Seq::empty()
    }) + color_param("38;2;"@, fg) + color_param("48;2;"@, bg)
}

/// The SGR sequence that opens a style; empty when the style sets nothing.
pub open spec fn open_code(bold: bool, underline: bool, fg: Option<Seq<char>>, bg: Option<Seq<char>>) -> Seq<char> {
    let ps = open_params(bold, underline, fg, bg);
    if ps.len() == 0 {
        Seq::empty()
    } else {
        "\x1b["@ + join(ps, ";"@) + "m"@
    }
}

/// Whether both colours of a style can be parsed without fault.
pub open spec fn colors_ok(fg: Option<Seq<char>>, bg: Option<Seq<char>>) -> bool {
    &&& fg matches Some(c) ==> color_ok(c)
    &&& bg matches Some(c) ==> color_ok(c)
}

/// The view of an optional string.
pub open spec fn opt_view(o: Option<String>) -> Option<Seq<char>> {
    match o {
        Some(s) => Some(s@),
        None => None,
    }
}

fn push_color_param(params: &mut Vec<String>, prefix: &str, color: &Option<String>)
    requires
        color matches Some(c) ==> color_ok(c@),
    ensures
        str_views(final(params)@) == str_views(old(params)@) + color_param(prefix@, opt_view(*color)),
{
    let ghost before = str_views(params@);
    match color {
        Some(c) => match parse_hex_color(c.as_str()) {
            Some((r, g, b)) => {
                let mut s = owned(prefix);
                let rs = u32_decimal(r as u32);
                push_str(&mut s, rs.as_str());
                push_str(&mut s, ";");
                let gs = u32_decimal(g as u32);
                push_str(&mut s, gs.as_str());
                push_str(&mut s, ";");
                let bs = u32_decimal(b as u32);
                push_str(&mut s, bs.as_str());
                params.push(s);
                assert(str_views(params@) =~= before + color_param(prefix@, opt_view(*color)));
            },
            None => {
                assert(str_views(params@) =~= before + color_param(prefix@, opt_view(*color)));
            },
        },
        None => {
            assert(str_views(params@) =~= before + color_param(prefix@, opt_view(*color)));
        },
    }
}

fn push_flag(params: &mut Vec<String>, on: bool, p: &str)
    ensures
        str_views(final(params)@) == str_views(old(params)@) + (if on {
            seq![p@]
        } else {
            Seq::empty()
        }),
{
    let ghost before = str_views(params@);
    if on {
        params.push(owned(p));
    }
    assert(str_views(params@) =~= before + (if on {
        seq![p@]
    } else {
        Seq::empty()
    }));
}

/// `items` joined with `sep`, as a fresh string.
fn join_exec(items: &Vec<String>, sep: &str) -> (r: String)
    ensures
        r@ == join(str_views(items@), sep@),
{
    let ghost ps = str_views(items@);
    let mut joined = String::new();
    let mut k: usize = 0;
    while k < items.len()
        invariant
            k <= items@.len(),
            ps == str_views(items@),
            joined@ == join(ps.take(k as int), sep@),
        decreases items.len() - k,
    {
        assert(ps.take(k + 1).drop_last() =~= ps.take(k as int));
        assert(ps.take(k + 1).last() == items@[k as int]@);
        if k > 0 {
            push_str(&mut joined, sep);
        } else {
            assert(ps.take(1) =~= seq![ps[0]]);
            assert(joined@ =~= Seq::<char>::empty());
        }
        push_str(&mut joined, items[k].as_str());
        k = k + 1;
    }
    assert(ps.take(k as int) =~= ps);
    joined
}

/// Builds the SGR sequence that opens a style.
fn style_code(bold: bool, underline: bool, fg: &Option<String>, bg: &Option<String>) -> (r: String)
    requires
        colors_ok(opt_view(*fg), opt_view(*bg)),
    ensures
        r@ == open_code(bold, underline, opt_view(*fg), opt_view(*bg)),
{
    let mut params: Vec<String> = Vec::new();
    assert(str_views(params@) =~= Seq::<Seq<char>>::empty());
    push_flag(&mut params, bold, "1");
    push_flag(&mut params, underline, "4");
    push_color_param(&mut params, "38;2;", fg);
    push_color_param(&mut params, "48;2;", bg);
    assert(str_views(params@) =~= open_params(bold, underline, opt_view(*fg), opt_view(*bg)));
    if params.len() == 0 {
        return String::new();
    }
    let joined = join_exec(&params, ";");
    let mut out = owned("\x1b[");
    push_str(&mut out, joined.as_str());
    push_str(&mut out, "m");
    out
}

/// Builds the SGR sequence that opens a rule's style.
pub fn build_open_code(rule: &HighlightRule) -> (r: String)
    requires
        colors_ok(opt_view(rule.fg_color), opt_view(rule.bg_color)),
    ensures
        r@ == open_code(rule.bold, rule.underline, opt_view(rule.fg_color), opt_view(rule.bg_color)),
{
    style_code(rule.bold, rule.underline, &rule.fg_color, &rule.bg_color)
}

// ---------------------------------------------------------------------------
// Stripping existing CSI sequences
// ---------------------------------------------------------------------------

/// Index just past the final byte (`@`..`~`) of a CSI sequence whose
/// parameters start at `k`, or the end of `s`.
pub open spec fn csi_final(s: Seq<char>, k: int) -> int
    decreases s.len() - k,
{
    if k < 0 || k >= s.len() {
        s.len() as int
    } else if '\x40' <= s[k] <= '\x7e' {
        k + 1
    } else {
        csi_final(s, k + 1)
    }
}

/// `s[i..]` without escape sequences: `ESC [` … final byte, or `ESC` and
/// the character after it.
pub open spec fn csi_strip_from(s: Seq<char>, i: int) -> Seq<char>
    decreases s.len() - i,
    via csi_strip_decreases
{
    if i < 0 || i >= s.len() {
        Seq::empty()
    } else if s[i] == '\x1b' {
        if i + 1 < s.len() && s[i + 1] == '[' {
            csi_strip_from(s, csi_final(s, i + 2))
        } else if i + 1 < s.len() {
            csi_strip_from(s, i + 2)
        } else {
            Seq::empty()
        }
    } else {
        seq![s[i]] + csi_strip_from(s, i + 1)
    }
}

#[via_fn]
proof fn csi_strip_decreases(s: Seq<char>, i: int) {
    if 0 <= i < s.len() && s[i] == '\x1b' && i + 1 < s.len() && s[i + 1] == '[' {
        lemma_csi_final(s, i + 2);
    }
}

proof fn lemma_csi_final(s: Seq<char>, k: int)
    requires
        0 <= k <= s.len(),
    ensures
        k <= csi_final(s, k) <= s.len(),
        csi_final(s, k) > k || k == s.len(),
    decreases s.len() - k,
{
    if k < s.len() && !('\x40' <= s[k] <= '\x7e') {
        lemma_csi_final(s, k + 1);
    }
}

/// `s` without escape sequences.
fn csi_strip(c: &Vec<char>, lo: usize, hi: usize) -> (r: Vec<char>)
    requires
        lo <= hi <= c@.len(),
    ensures
        r@ == csi_strip_from(c@.subrange(lo as int, hi as int), 0),
{
    let ghost s = c@.subrange(lo as int, hi as int);
    let mut out: Vec<char> = Vec::new();
    let mut i = lo;
    while i < hi
        invariant
            lo <= i <= hi <= c@.len(),
            s == c@.subrange(lo as int, hi as int),
            csi_strip_from(s, 0) == out@ + csi_strip_from(s, i - lo),
        decreases hi - i,
    {
        let ghost o = out@;
        if c[i] == '\x1b' {
            if i + 1 < hi && c[i + 1] == '[' {
                proof {
                    lemma_csi_final(s, i - lo + 2);
                }
                let mut j = i + 2;
                while j < hi && !('\x40' <= c[j] && c[j] <= '\x7e')
                    invariant
                        lo + 2 <= i + 2 <= j <= hi <= c@.len(),
                        s == c@.subrange(lo as int, hi as int),
                        csi_final(s, i - lo + 2) == csi_final(s, j - lo),
                    decreases hi - j,
                {
                    j = j + 1;
                }
                if j < hi {
                    j = j + 1;
                }
                i = j;
            } else if i + 1 < hi {
                i = i + 2;
            } else {
                i = hi;
                assert(out@ + Seq::<char>::empty() =~= out@);
            }
        } else {
            out.push(c[i]);
            assert(o + (seq![s[i - lo]] + csi_strip_from(s, i - lo + 1)) =~= out@ + csi_strip_from(s, i - lo + 1));
            i = i + 1;
        }
    }
    assert(out@ + Seq::<char>::empty() =~= out@);
    out
}

// ---------------------------------------------------------------------------
// Compiled rules
// ---------------------------------------------------------------------------

/// A rule ready for matching: its effective pattern and its style.
pub struct CompiledView {
    pub pattern: Seq<char>,
    pub sort_order: i32,
    pub bold: bool,
    pub underline: bool,
    pub fg: Option<Seq<char>>,
    pub bg: Option<Seq<char>>,
}

/// The pattern a rule is matched with: its regex, or its text escaped.
pub open spec fn effective_pattern(r: HighlightRule) -> Seq<char> {
    if r.is_regex {
        r.pattern@
    } else {
        regex_escaped(r.pattern@)
    }
}

/// The compiled form of a rule.
pub open spec fn compiled_of(r: HighlightRule) -> CompiledView {
    CompiledView {
        pattern: effective_pattern(r),
        sort_order: r.sort_order,
        bold: r.bold,
        underline: r.underline,
        fg: opt_view(r.fg_color),
        bg: opt_view(r.bg_color),
    }
}

/// The enabled rules whose pattern compiles, in their given order.
pub open spec fn usable_rules(rules: Seq<HighlightRule>) -> Seq<CompiledView>
    decreases rules.len(),
{
    if rules.len() == 0 {
        Seq::empty()
    } else {
        let rest = usable_rules(rules.drop_last());
        let r = rules.last();
        if r.enabled && regex_compiles(effective_pattern(r)) {
            rest.push(compiled_of(r))
        } else {
            rest
        }
    }
}

/// Inserts `r` after every rule whose `sort_order` is at most its own.
pub open spec fn insert_by_order(sorted: Seq<CompiledView>, r: CompiledView) -> Seq<CompiledView>
    decreases sorted.len(),
{
    if sorted.len() == 0 {
        seq![r]
    } else if sorted.last().sort_order <= r.sort_order {
        sorted.push(r)
    } else {
        insert_by_order(sorted.drop_last(), r).push(sorted.last())
    }
}

/// Stable sort by `sort_order`.
pub open spec fn sort_by_order(rules: Seq<CompiledView>) -> Seq<CompiledView>
    decreases rules.len(),
{
    if rules.len() == 0 {
        Seq::empty()
    } else {
        insert_by_order(sort_by_order(rules.drop_last()), rules.last())
    }
}

proof fn lemma_insert_at(sorted: Seq<CompiledView>, r: CompiledView, k: int)
    requires
        0 <= k <= sorted.len(),
        forall|j: int| k <= j < sorted.len() ==> (#[trigger] sorted[j]).sort_order > r.sort_order,
        k == 0 || sorted[k - 1].sort_order <= r.sort_order,
    ensures
        insert_by_order(sorted, r) == sorted.insert(k, r),
    decreases sorted.len(),
{
    if sorted.len() == 0 {
        assert(sorted.insert(k, r) =~= seq![r]);
    } else if k == sorted.len() {
        assert(sorted.insert(k, r) =~= sorted.push(r));
    } else {
        let d = sorted.drop_last();
        assert forall|j: int| k <= j < d.len() implies (#[trigger] d[j]).sort_order > r.sort_order by {
            assert(d[j] == sorted[j]);
        }
        lemma_insert_at(d, r, k);
        assert(d.insert(k, r).push(sorted.last()) =~= sorted.insert(k, r));
    }
}

/// A compiled rule.
pub struct CompiledRule {
    pub pattern: String,
    pub sort_order: i32,
    pub bold: bool,
    pub underline: bool,
    pub fg_color: Option<String>,
    pub bg_color: Option<String>,
}

impl View for CompiledRule {
    type V = CompiledView;

    open spec fn view(&self) -> CompiledView {
        CompiledView {
            pattern: self.pattern@,
            sort_order: self.sort_order,
            bold: self.bold,
            underline: self.underline,
            fg: opt_view(self.fg_color),
            bg: opt_view(self.bg_color),
        }
    }
}

pub open spec fn compiled_views(v: Seq<CompiledRule>) -> Seq<CompiledView> {
    Seq::new(v.len(), |i: int| v[i]@)
}

fn clone_opt(o: &Option<String>) -> (r: Option<String>)
    ensures
        opt_view(r) == opt_view(*o),
{
    match o {
        Some(s) => Some(s.clone()),
        None => None,
    }
}

/// Whether a compiled rule can be used: its pattern compiles and its
/// colours can be parsed.
pub open spec fn usable(c: CompiledView) -> bool {
    regex_compiles(c.pattern) && colors_ok(c.fg, c.bg)
}

/// Applies highlight rules to terminal output.
pub struct Highlighter {
    rules: Vec<CompiledRule>,
}

impl Highlighter {
    /// The rules in the order they apply.
    pub closed spec fn rules_view(&self) -> Seq<CompiledView> {
        compiled_views(self.rules@)
    }

    /// Every rule compiles and has parseable colours.
    pub closed spec fn wf(&self) -> bool {
        forall|i: int| 0 <= i < self.rules@.len() ==> usable(#[trigger] self.rules@[i]@)
    }

    /// A highlighter over the enabled rules whose pattern compiles, in
    /// (stable) `sort_order`. Literal rules match their text exactly.
    pub fn new(rules: Vec<HighlightRule>) -> (h: Highlighter)
        requires
            forall|i: int|
                0 <= i < rules@.len() && (#[trigger] rules@[i]).enabled ==> colors_ok(
                    opt_view(rules@[i].fg_color),
                    opt_view(rules@[i].bg_color),
                ),
        ensures
            h.wf(),
            h.rules_view() == sort_by_order(usable_rules(rules@)),
    {
        let mut compiled: Vec<CompiledRule> = Vec::new();
        let mut i: usize = 0;
        while i < rules.len()
            invariant
                i <= rules@.len(),
                compiled_views(compiled@) == sort_by_order(usable_rules(rules@.take(i as int))),
                forall|j: int| 0 <= j < compiled@.len() ==> usable(#[trigger] compiled@[j]@),
                forall|j: int|
                    0 <= j < rules@.len() && (#[trigger] rules@[j]).enabled ==> colors_ok(
                        opt_view(rules@[j].fg_color),
                        opt_view(rules@[j].bg_color),
                    ),
            decreases rules.len() - i,
        {
            let r = &rules[i];
            let ghost u = usable_rules(rules@.take(i as int));
            assert(rules@.take(i + 1).drop_last() =~= rules@.take(i as int));
            assert(rules@.take(i + 1).last() == rules@[i as int]);
            if r.enabled {
                let pattern = if r.is_regex {
                    r.pattern.clone()
                } else {
                    regex_escape(r.pattern.as_str())
                };
                if regex_valid(pattern.as_str()) {
                    let c = CompiledRule {
                        pattern,
                        sort_order: r.sort_order,
                        bold: r.bold,
                        underline: r.underline,
                        fg_color: clone_opt(&r.fg_color),
                        bg_color: clone_opt(&r.bg_color),
                    };
                    assert(c@ == compiled_of(rules@[i as int]));
                    assert(usable_rules(rules@.take(i + 1)) == u.push(c@));
                    assert(u.push(c@).drop_last() =~= u);
                    assert(sort_by_order(u.push(c@)) == insert_by_order(sort_by_order(u), c@));
                    let ghost before = compiled@;
                    let mut k = compiled.len();
                    while k > 0 && compiled[k - 1].sort_order > c.sort_order
                        invariant
                            k <= compiled@.len(),
                            compiled@ == before,
                            forall|j: int| k <= j < compiled@.len() ==> (#[trigger] compiled@[j]).sort_order > c.sort_order,
                        decreases k,
                    {
                        k = k - 1;
                    }
                    proof {
                        let sv = compiled_views(before);
                        assert forall|j: int| k <= j < sv.len() implies (#[trigger] sv[j]).sort_order > c@.sort_order by {
                            assert(sv[j] == before[j]@);
                        }
                        if k > 0 {
                            assert(sv[k - 1] == before[k - 1]@);
                        }
                        lemma_insert_at(sv, c@, k as int);
                    }
                    compiled.insert(k, c);
                    assert(compiled_views(compiled@) =~= compiled_views(before).insert(k as int, compiled@[k as int]@));
                    assert forall|j: int| 0 <= j < compiled@.len() implies usable(#[trigger] compiled@[j]@) by {
                        if j < k {
                            assert(compiled@[j] == before[j]);
                        } else if j > k {
                            assert(compiled@[j] == before[j - 1]);
                        }
                    }
                }
            }
            i = i + 1;
        }
        assert(rules@.take(i as int) =~= rules@);
        Highlighter { rules: compiled }
    }
}

// ---------------------------------------------------------------------------
// Highlighting
// ---------------------------------------------------------------------------

/// A match `(start, end, rule)` in byte offsets of the cleaned text.
pub type Span = (usize, usize, usize);

/// Whether `[s, e)` overlaps a span already taken.
pub open spec fn overlaps(acc: Seq<Span>, s: usize, e: usize) -> bool {
    exists|k: int| 0 <= k < acc.len() && s < (#[trigger] acc[k]).1 && e > acc[k].0
}

/// Takes the matches `ms` of rule `ri` that overlap nothing taken so far.
pub open spec fn add_spans(acc: Seq<Span>, ms: Seq<(usize, usize)>, ri: usize) -> Seq<Span>
    decreases ms.len(),
{
    if ms.len() == 0 {
        acc
    } else {
        let m = ms[0];
        let acc2 = if overlaps(acc, m.0, m.1) {
            acc
        } else {
            acc.push((m.0, m.1, ri))
        };
        add_spans(acc2, ms.drop_first(), ri)
    }
}

/// The spans of rules `i..` on `clean`, rule by rule, earlier ones winning.
pub open spec fn collect_spans(rules: Seq<CompiledView>, clean: Seq<char>, i: int, acc: Seq<Span>) -> Seq<Span>
    decreases rules.len() - i,
{
    if i < 0 || i >= rules.len() {
        acc
    } else {
        collect_spans(rules, clean, i + 1, add_spans(acc, regex_find_spans(rules[i].pattern, clean), i as usize))
    }
}

/// Inserts `x` after every span that starts at or before it.
pub open spec fn insert_by_start(sorted: Seq<Span>, x: Span) -> Seq<Span>
    decreases sorted.len(),
{
    if sorted.len() == 0 {
        seq![x]
    } else if sorted.last().0 <= x.0 {
        sorted.push(x)
    } else {
        insert_by_start(sorted.drop_last(), x).push(sorted.last())
    }
}

/// Stable sort by start offset.
pub open spec fn sort_by_start(spans: Seq<Span>) -> Seq<Span>
    decreases spans.len(),
{
    if spans.len() == 0 {
        Seq::empty()
    } else {
        insert_by_start(sort_by_start(spans.drop_last()), spans.last())
    }
}

proof fn lemma_insert_start_at(sorted: Seq<Span>, x: Span, k: int)
    requires
        0 <= k <= sorted.len(),
        forall|j: int| k <= j < sorted.len() ==> (#[trigger] sorted[j]).0 > x.0,
        k == 0 || sorted[k - 1].0 <= x.0,
    ensures
        insert_by_start(sorted, x) == sorted.insert(k, x),
    decreases sorted.len(),
{
    if sorted.len() == 0 {
        assert(sorted.insert(k, x) =~= seq![x]);
    } else if k == sorted.len() {
        assert(sorted.insert(k, x) =~= sorted.push(x));
    } else {
        let d = sorted.drop_last();
        assert forall|j: int| k <= j < d.len() implies (#[trigger] d[j]).0 > x.0 by {
            assert(d[j] == sorted[j]);
        }
        lemma_insert_start_at(d, x, k);
        assert(d.insert(k, x).push(sorted.last()) =~= sorted.insert(k, x));
    }
}

/// The reset sequence closing a highlight.
pub open spec fn reset_code() -> Seq<char> {
    "\x1b[0m"@
}

/// Rebuilds the cleaned text `cb` with each span wrapped in its rule's
/// style, from `cursor` on.
pub open spec fn render_from(rules: Seq<CompiledView>, cb: Seq<u8>, sp: Seq<Span>, cursor: int) -> Seq<u8>
    decreases sp.len(),
{
    if sp.len() == 0 {
        if cursor < cb.len() {
            cb.subrange(cursor, cb.len() as int)
        } else {
            Seq::empty()
        }
    } else {
        let (s, e, ri) = sp[0];
        let r = rules[ri as int];
        (if cursor < s {
            cb.subrange(cursor, s as int)
        } else {
            Seq::empty()
        }) + encode_utf8(open_code(r.bold, r.underline, r.fg, r.bg)) + cb.subrange(s as int, e as int)
            + encode_utf8(reset_code()) + render_from(rules, cb, sp.drop_first(), e as int)
    }
}

/// One segment (a line with its `\n`) highlighted: unchanged when nothing
/// matches its cleaned text, else the cleaned text with highlights.
pub open spec fn hl_segment(rules: Seq<CompiledView>, seg: Seq<char>) -> Seq<u8> {
    let clean = csi_strip_from(seg, 0);
    let spans = collect_spans(rules, clean, 0, Seq::empty());
    if spans.len() == 0 {
        encode_utf8(seg)
    } else {
        render_from(rules, encode_utf8(clean), sort_by_start(spans), 0)
    }
}

/// The text highlighted segment by segment.
pub open spec fn hl_text(rules: Seq<CompiledView>, s: Seq<char>) -> Seq<u8>
    decreases s.len(),
{
    if s.len() == 0 {
        Seq::empty()
    } else {
        let i = find_from(s, '\n', 0);
        let e = if 0 <= i < s.len() {
            i + 1
        } else {
            s.len() as int
        };
        hl_segment(rules, s.take(e)) + hl_text(rules, s.skip(e))
    }
}

/// What `apply` returns: the input unchanged when there are no rules, else
/// the (lossily decoded) text highlighted.
pub open spec fn highlighted(rules: Seq<CompiledView>, input: Seq<u8>) -> Seq<u8> {
    if rules.len() == 0 {
        input
    } else {
        hl_text(rules, lossy(input))
    }
}

fn push_bytes(out: &mut Vec<u8>, b: &[u8], lo: usize, hi: usize)
    requires
        lo <= hi <= b@.len(),
    ensures
        final(out)@ == old(out)@ + b@.subrange(lo as int, hi as int),
{
    let ghost o = out@;
    let mut k = lo;
    while k < hi
        invariant
            lo <= k <= hi <= b@.len(),
            out@ == o + b@.subrange(lo as int, k as int),
        decreases hi - k,
    {
        out.push(b[k]);
        assert(o + b@.subrange(lo as int, k + 1) =~= (o + b@.subrange(lo as int, k as int)).push(b@[k as int]));
        k = k + 1;
    }
}

fn push_str_bytes(out: &mut Vec<u8>, s: &str)
    ensures
        final(out)@ == old(out)@ + encode_utf8(s@),
{
    let b = s.as_bytes();
    push_bytes(out, b, 0, b.len());
    assert(b@.subrange(0, b@.len() as int) =~= b@);
}

/// Whether `[s, e)` overlaps a span in `spans`.
fn overlaps_exec(spans: &Vec<Span>, s: usize, e: usize) -> (b: bool)
    ensures
        b == overlaps(spans@, s, e),
{
    let mut k: usize = 0;
    while k < spans.len()
        invariant
            k <= spans@.len(),
            forall|j: int| 0 <= j < k ==> !(s < (#[trigger] spans@[j]).1 && e > spans@[j].0),
        decreases spans.len() - k,
    {
        if s < spans[k].1 && e > spans[k].0 {
            return true;
        }
        k = k + 1;
    }
    false
}

impl Highlighter {
    fn highlight_segment(&self, c: &Vec<char>, lo: usize, hi: usize) -> (r: Vec<u8>)
        requires
            self.wf(),
            lo <= hi <= c@.len(),
        ensures
            r@ == hl_segment(self.rules_view(), c@.subrange(lo as int, hi as int)),
    {
        let ghost rv = self.rules_view();
        let ghost seg = c@.subrange(lo as int, hi as int);
        let clean_v = csi_strip(c, lo, hi);
        let clean = crate::text::string_from_chars(&clean_v);
        let cb = clean.as_str().as_bytes();
        let ghost cleanv = clean@;
        let mut spans: Vec<Span> = Vec::new();
        let mut i: usize = 0;
        while i < self.rules.len()
            invariant
                self.wf(),
                rv == self.rules_view(),
                i <= self.rules@.len(),
                cleanv == clean@,
                cb@ == encode_utf8(clean@),
                collect_spans(rv, cleanv, 0, Seq::empty()) == collect_spans(rv, cleanv, i as int, spans@),
                forall|j: int|
                    0 <= j < spans@.len() ==> (#[trigger] spans@[j]).0 <= spans@[j].1 <= cb@.len() && spans@[j].2
                        < self.rules@.len(),
            decreases self.rules.len() - i,
        {
            assert(rv[i as int] == self.rules@[i as int]@);
            assert(usable(self.rules@[i as int]@));
            let ms = regex_spans(self.rules[i].pattern.as_str(), clean.as_str());
            match ms {
                Some(ms) => {
                    let ghost msv = ms@;
                    let mut k: usize = 0;
                    assert(msv.skip(0) =~= msv);
                    while k < ms.len()
                        invariant
                            k <= ms@.len(),
                            msv == ms@,
                            i < self.rules@.len(),
                            cb@ == encode_utf8(clean@),
                            forall|j: int|
                                0 <= j < ms@.len() ==> (#[trigger] ms@[j]).0 <= ms@[j].1 <= cb@.len(),
                            add_spans(Seq::empty(), Seq::empty(), 0) == Seq::<Span>::empty(),
                            collect_spans(rv, cleanv, 0, Seq::empty()) == collect_spans(
                                rv,
                                cleanv,
                                i + 1,
                                add_spans(spans@, msv.skip(k as int), i),
                            ),
                            forall|j: int|
                                0 <= j < spans@.len() ==> (#[trigger] spans@[j]).0 <= spans@[j].1 <= cb@.len()
                                    && spans@[j].2 < self.rules@.len(),
                        decreases ms.len() - k,
                    {
                        let (s0, e0) = ms[k];
                        assert(msv.skip(k as int)[0] == (s0, e0));
                        assert(msv.skip(k as int).drop_first() =~= msv.skip(k + 1));
                        if !overlaps_exec(&spans, s0, e0) {
                            spans.push((s0, e0, i));
                        }
                        k = k + 1;
                    }
                    assert(msv.skip(k as int) =~= Seq::<(usize, usize)>::empty());
                },
                None => {},
            }
            i = i + 1;
        }
        if spans.len() == 0 {
            let seg_s = string_from_range(c, lo, hi);
            let mut out: Vec<u8> = Vec::new();
            push_str_bytes(&mut out, seg_s.as_str());
            assert(out@ =~= encode_utf8(seg));
            return out;
        }
        // Stable insertion sort by start.
        let mut sorted: Vec<Span> = Vec::new();
        let mut q: usize = 0;
        while q < spans.len()
            invariant
                q <= spans@.len(),
                sorted@ == sort_by_start(spans@.take(q as int)),
                forall|j: int| 0 <= j < sorted@.len() ==> (#[trigger] sorted@[j]).0 <= sorted@[j].1 <= cb@.len() && sorted@[j].2 < self.rules@.len(),
                forall|j: int|
                    0 <= j < spans@.len() ==> (#[trigger] spans@[j]).0 <= spans@[j].1 <= cb@.len() && spans@[j].2
                        < self.rules@.len(),
            decreases spans.len() - q,
        {
            let x = spans[q];
            assert(spans@.take(q + 1).drop_last() =~= spans@.take(q as int));
            assert(spans@.take(q + 1).last() == x);
            let ghost before = sorted@;
            let mut k = sorted.len();
            while k > 0 && sorted[k - 1].0 > x.0
                invariant
                    k <= sorted@.len(),
                    sorted@ == before,
                    forall|j: int| k <= j < sorted@.len() ==> (#[trigger] sorted@[j]).0 > x.0,
                decreases k,
            {
                k = k - 1;
            }
            proof {
                lemma_insert_start_at(before, x, k as int);
            }
            sorted.insert(k, x);
            assert forall|j: int| 0 <= j < sorted@.len() implies (#[trigger] sorted@[j]).0 <= sorted@[j].1 <= cb@.len() && sorted@[j].2 < self.rules@.len() by {
                if j < k {
                    assert(sorted@[j] == before[j]);
                } else if j > k {
                    assert(sorted@[j] == before[j - 1]);
                }
            }
            q = q + 1;
        }
        assert(spans@.take(q as int) =~= spans@);
        self.render(cb, &sorted)
    }

    /// Rebuilds the cleaned text `cb` with the sorted spans highlighted.
    #[verifier::rlimit(80)]
    #[verifier::spinoff_prover]
    fn render(&self, cb: &[u8], sorted: &Vec<Span>) -> (out: Vec<u8>)
        requires
            self.wf(),
            forall|j: int| 0 <= j < sorted@.len() ==> (#[trigger] sorted@[j]).0 <= sorted@[j].1 <= cb@.len() && sorted@[j].2 < self.rules@.len(),
        ensures
            out@ == render_from(self.rules_view(), cb@, sorted@, 0),
    {
        let ghost rv = self.rules_view();
        let ghost sp = sorted@;
        let mut out: Vec<u8> = Vec::new();
        let mut cursor: usize = 0;
        let mut k: usize = 0;
        assert(sp.skip(0) =~= sp);
        assert(out@ + render_from(rv, cb@, sp, 0) =~= render_from(rv, cb@, sp, 0));
        while k < sorted.len()
            invariant
                k <= sorted@.len(),
                sp == sorted@,
                cursor <= cb@.len(),
                self.wf(),
                rv == self.rules_view(),
                forall|j: int| 0 <= j < sorted@.len() ==> (#[trigger] sorted@[j]).0 <= sorted@[j].1 <= cb@.len() && sorted@[j].2 < self.rules@.len(),
                render_from(rv, cb@, sp, 0) == out@ + render_from(rv, cb@, sp.skip(k as int), cursor as int),
            decreases sorted.len() - k,
        {
            let (s0, e0, ri) = sorted[k];
            let ghost o = out@;
            let ghost rest = sp.skip(k as int);
            assert(rest[0] == (s0, e0, ri));
            assert(rest.drop_first() =~= sp.skip(k + 1));
            assert(rv[ri as int] == self.rules@[ri as int]@);
            assert(usable(self.rules@[ri as int]@));
            let ghost pre: Seq<u8> = if cursor < s0 {
                cb@.subrange(cursor as int, s0 as int)
            } else {
                Seq::empty()
            };
            if cursor < s0 {
                push_bytes(&mut out, cb, cursor, s0);
            } else {
                assert(out@ =~= o + pre);
            }
            let r = &self.rules[ri];
            let code = style_code(r.bold, r.underline, &r.fg_color, &r.bg_color);
            let ghost o1 = out@;
            push_str_bytes(&mut out, code.as_str());
            let ghost o2 = out@;
            push_bytes(&mut out, cb, s0, e0);
            let ghost o3 = out@;
            push_str_bytes(&mut out, "\x1b[0m");
            proof {
                let tail = render_from(rv, cb@, sp.skip(k + 1), e0 as int);
                let piece = pre + encode_utf8(code@) + cb@.subrange(s0 as int, e0 as int) + encode_utf8(reset_code());
                assert(render_from(rv, cb@, rest, cursor as int) == piece + tail);
                assert(out@ =~= o + piece);
                assert(o + (piece + tail) =~= out@ + tail);
            }
            cursor = e0;
            k = k + 1;
        }
        assert(sp.skip(k as int) =~= Seq::<Span>::empty());
        let ghost o = out@;
        if cursor < cb.len() {
            push_bytes(&mut out, cb, cursor, cb.len());
        } else {
            assert(out@ =~= o + Seq::<u8>::empty());
        }
        out
    }

    /// Highlights a chunk of terminal output. With no rules the chunk is
    /// returned unchanged; otherwise it is decoded (lossily) and highlighted
    /// line by line.
    pub fn apply(&self, input: &[u8]) -> (r: Vec<u8>)
        requires
            self.wf(),
        ensures
            r@ == highlighted(self.rules_view(), input@),
    {
        if self.rules.len() == 0 {
            let mut out: Vec<u8> = Vec::new();
            push_bytes(&mut out, input, 0, input.len());
            assert(input@.subrange(0, input@.len() as int) =~= input@);
            return out;
        }
        let text = decode_lossy(input);
        let c = to_chars(text.as_str());
        let n = c.len();
        let mut out: Vec<u8> = Vec::new();
        let mut pos: usize = 0;
        assert(c@.skip(0) =~= c@);
        while pos < n
            invariant
                pos <= n,
                n == c@.len(),
                self.wf(),
                hl_text(self.rules_view(), c@) == out@ + hl_text(self.rules_view(), c@.skip(pos as int)),
            decreases n - pos,
        {
            let i = crate::text::find_char(&c, '\n', pos, n);
            let ghost s = c@.skip(pos as int);
            assert(c@.subrange(pos as int, n as int) =~= s);
            proof {
                crate::text::lemma_find_from(s, '\n', 0);
            }
            let e = if i < n {
                i + 1
            } else {
                n
            };
            assert(s.take(e - pos) =~= c@.subrange(pos as int, e as int));
            assert(s.skip(e - pos) =~= c@.skip(e as int));
            let seg = self.highlight_segment(&c, pos, e);
            let ghost o = out@;
            push_bytes(&mut out, seg.as_slice(), 0, seg.len());
            assert(seg@.subrange(0, seg@.len() as int) =~= seg@);
            assert(o + (seg@ + hl_text(self.rules_view(), c@.skip(e as int))) =~= out@ + hl_text(self.rules_view(), c@.skip(e as int)));
            pos = e;
        }
        assert(c@.skip(n as int) =~= Seq::<char>::empty());
        assert(out@ + Seq::<u8>::empty() =~= out@);
        out
    }
}

/// No two spans of `acc` overlap.
pub open spec fn disjoint(acc: Seq<Span>) -> bool {
    forall|j: int, k: int|
        0 <= j < k < acc.len() ==> !((#[trigger] acc[k]).0 < (#[trigger] acc[j]).1 && acc[k].1 > acc[j].0)
}

proof fn lemma_add_spans_disjoint(acc: Seq<Span>, ms: Seq<(usize, usize)>, ri: usize)
    requires
        disjoint(acc),
    ensures
        disjoint(add_spans(acc, ms, ri)),
    decreases ms.len(),
{
    if ms.len() > 0 {
        let m = ms[0];
        let acc2 = if overlaps(acc, m.0, m.1) {
            acc
        } else {
            acc.push((m.0, m.1, ri))
        };
        if !overlaps(acc, m.0, m.1) {
            assert forall|j: int, k: int| 0 <= j < k < acc2.len() implies !((#[trigger] acc2[k]).0 < (
            #[trigger] acc2[j]).1 && acc2[k].1 > acc2[j].0) by {
                if k == acc.len() {
                    assert(acc2[j] == acc[j]);
                    if m.0 < acc[j].1 && m.1 > acc[j].0 {
                        assert(overlaps(acc, m.0, m.1));
                    }
                } else {
                    assert(acc2[j] == acc[j] && acc2[k] == acc[k]);
                }
            }
        }
        lemma_add_spans_disjoint(acc2, ms.drop_first(), ri);
    }
}

proof fn lemma_collect_disjoint(rules: Seq<CompiledView>, clean: Seq<char>, i: int, acc: Seq<Span>)
    requires
        disjoint(acc),
    ensures
        disjoint(collect_spans(rules, clean, i, acc)),
    decreases rules.len() - i,
{
    if 0 <= i < rules.len() {
        lemma_add_spans_disjoint(acc, regex_find_spans(rules[i].pattern, clean), i as usize);
        lemma_collect_disjoint(
            rules,
            clean,
            i + 1,
            add_spans(acc, regex_find_spans(rules[i].pattern, clean), i as usize),
        );
    }
}

/// Highlights never overlap: of two matches that overlap, only the one of
/// the earlier rule (or, within a rule, the earlier match) is kept.
pub proof fn lemma_spans_disjoint(rules: Seq<CompiledView>, clean: Seq<char>)
    ensures
        disjoint(collect_spans(rules, clean, 0, Seq::empty())),
{
    lemma_collect_disjoint(rules, clean, 0, Seq::empty());
}

/// Without rules, output passes through unchanged.
pub proof fn lemma_passthrough_without_rules(input: Seq<u8>)
    ensures
        highlighted(Seq::empty(), input) == input,
{
}

} // verus!
