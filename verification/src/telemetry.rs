use vstd::prelude::*;

use crate::digits::{
    all_digits, dec_digits, digits_val, fmt_2d, is_digit, lemma_2d_roundtrip,
    lemma_dec_digits_val, parse_2d, parse_u64_digits, push_2d, push_dec_digits, spec_parse_2d,
    spec_parse_u64,
};
use crate::fields::{bytes_eq, bytes_view, comma, comma_free, comma_free_exec, copy_range, join_commas, join_commas_exec, push_bytes, split_commas, split_commas_exec};

verus! {

/// Whether the telemetry sample came from flight or simulation.
#[derive(Debug, Clone, Copy, PartialEq, Eq, Structural)]
pub enum Mode {
    Flight,
    Simulation,
}

/// The mission phase the payload reports itself in.
#[derive(Debug, Clone, Copy, PartialEq, Eq, Structural)]
pub enum State {
    Launchpad,
    Ascent,
    Descent,
    Landed,
    Yeeted,
}

/// Whether the heat shield has deployed.
#[derive(Debug, Clone, Copy, PartialEq, Eq, Structural)]
pub enum HsDeployed {
    Deployed,
    NotDeployed,
}

/// Whether the parachute has deployed.
#[derive(Debug, Clone, Copy, PartialEq, Eq, Structural)]
pub enum PcDeployed {
    Deployed,
    NotDeployed,
}

/// Whether the mast has been raised.
#[derive(Debug, Clone, Copy, PartialEq, Eq, Structural)]
pub enum MastRaised {
    Raised,
    NotRaised,
}

pub open spec fn tok_flight() -> Seq<u8> {
    seq![70u8, 108, 105, 103, 104, 116]
}

pub open spec fn tok_simulation() -> Seq<u8> {
    seq![83u8, 105, 109, 117, 108, 97, 116, 105, 111, 110]
}

pub open spec fn tok_launchpad() -> Seq<u8> {
    seq![76u8, 97, 117, 110, 99, 104, 112, 97, 100]
}

pub open spec fn tok_ascent() -> Seq<u8> {
    seq![65u8, 115, 99, 101, 110, 116]
}

pub open spec fn tok_descent() -> Seq<u8> {
    seq![68u8, 101, 115, 99, 101, 110, 116]
}

pub open spec fn tok_landed() -> Seq<u8> {
    seq![76u8, 97, 110, 100, 101, 100]
}

pub open spec fn tok_yeeted() -> Seq<u8> {
    seq![89u8, 101, 101, 116, 101, 100]
}

pub open spec fn tok_deployed() -> Seq<u8> {
    seq![68u8, 101, 112, 108, 111, 121, 101, 100]
}

pub open spec fn tok_not_deployed() -> Seq<u8> {
    seq![78u8, 111, 116, 68, 101, 112, 108, 111, 121, 101, 100]
}

pub open spec fn tok_raised() -> Seq<u8> {
    seq![82u8, 97, 105, 115, 101, 100]
}

pub open spec fn tok_not_raised() -> Seq<u8> {
    seq![78u8, 111, 116, 82, 97, 105, 115, 101, 100]
}

fn tok_flight_vec() -> (v: Vec<u8>)
    ensures
        v@ == tok_flight(),
{
    let v: Vec<u8> = vec![70u8, 108, 105, 103, 104, 116];
    assert(v@ =~= tok_flight());
    v
}

fn tok_simulation_vec() -> (v: Vec<u8>)
    ensures
        v@ == tok_simulation(),
{
    let v: Vec<u8> = vec![83u8, 105, 109, 117, 108, 97, 116, 105, 111, 110];
    assert(v@ =~= tok_simulation());
    v
}

fn tok_launchpad_vec() -> (v: Vec<u8>)
    ensures
        v@ == tok_launchpad(),
{
    let v: Vec<u8> = vec![76u8, 97, 117, 110, 99, 104, 112, 97, 100];
    assert(v@ =~= tok_launchpad());
    v
}

fn tok_ascent_vec() -> (v: Vec<u8>)
    ensures
        v@ == tok_ascent(),
{
    let v: Vec<u8> = vec![65u8, 115, 99, 101, 110, 116];
    assert(v@ =~= tok_ascent());
    v
}

fn tok_descent_vec() -> (v: Vec<u8>)
    ensures
        v@ == tok_descent(),
{
    let v: Vec<u8> = vec![68u8, 101, 115, 99, 101, 110, 116];
    assert(v@ =~= tok_descent());
    v
}

fn tok_landed_vec() -> (v: Vec<u8>)
    ensures
        v@ == tok_landed(),
{
    let v: Vec<u8> = vec![76u8, 97, 110, 100, 101, 100];
    assert(v@ =~= tok_landed());
    v
}

fn tok_yeeted_vec() -> (v: Vec<u8>)
    ensures
        v@ == tok_yeeted(),
{
    let v: Vec<u8> = vec![89u8, 101, 101, 116, 101, 100];
    assert(v@ =~= tok_yeeted());
    v
}

fn tok_deployed_vec() -> (v: Vec<u8>)
    ensures
        v@ == tok_deployed(),
{
    let v: Vec<u8> = vec![68u8, 101, 112, 108, 111, 121, 101, 100];
    assert(v@ =~= tok_deployed());
    v
}

fn tok_not_deployed_vec() -> (v: Vec<u8>)
    ensures
        v@ == tok_not_deployed(),
{
    let v: Vec<u8> = vec![78u8, 111, 116, 68, 101, 112, 108, 111, 121, 101, 100];
    assert(v@ =~= tok_not_deployed());
    v
}

fn tok_raised_vec() -> (v: Vec<u8>)
    ensures
        v@ == tok_raised(),
{
    let v: Vec<u8> = vec![82u8, 97, 105, 115, 101, 100];
    assert(v@ =~= tok_raised());
    v
}

fn tok_not_raised_vec() -> (v: Vec<u8>)
    ensures
        v@ == tok_not_raised(),
{
    let v: Vec<u8> = vec![78u8, 111, 116, 82, 97, 105, 115, 101, 100];
    assert(v@ =~= tok_not_raised());
    v
}

/// The literal token of a mode value.
pub open spec fn fmt_mode(m: Mode) -> Seq<u8> {
    match m {
        Mode::Flight => tok_flight(),
        Mode::Simulation => tok_simulation(),
    }
}

/// Reads a mode field: the literal tokens, matched exactly.
pub open spec fn spec_parse_mode(s: Seq<u8>) -> Option<Mode> {
    if s == tok_flight() {
        Some(Mode::Flight)
    } else if s == tok_simulation() {
        Some(Mode::Simulation)
    } else {
        None
    }
}

fn parse_mode(s: &[u8]) -> (r: Option<Mode>)
    ensures
        r == spec_parse_mode(s@),
{
    let t = tok_flight_vec();
    if bytes_eq(s, t.as_slice()) {
        return Some(Mode::Flight);
    }
    let t = tok_simulation_vec();
    if bytes_eq(s, t.as_slice()) {
        return Some(Mode::Simulation);
    }
    None
}

/// The literal token of a state value.
pub open spec fn fmt_state(st: State) -> Seq<u8> {
    match st {
        State::Launchpad => tok_launchpad(),
        State::Ascent => tok_ascent(),
        State::Descent => tok_descent(),
        State::Landed => tok_landed(),
        State::Yeeted => tok_yeeted(),
    }
}

/// Reads a state field: the literal tokens, matched exactly.
pub open spec fn spec_parse_state(s: Seq<u8>) -> Option<State> {
    if s == tok_launchpad() {
        Some(State::Launchpad)
    } else if s == tok_ascent() {
        Some(State::Ascent)
    } else if s == tok_descent() {
        Some(State::Descent)
    } else if s == tok_landed() {
        Some(State::Landed)
    } else if s == tok_yeeted() {
        Some(State::Yeeted)
    } else {
        None
    }
}

fn parse_state(s: &[u8]) -> (r: Option<State>)
    ensures
        r == spec_parse_state(s@),
{
    let t = tok_launchpad_vec();
    if bytes_eq(s, t.as_slice()) {
        return Some(State::Launchpad);
    }
    let t = tok_ascent_vec();
    if bytes_eq(s, t.as_slice()) {
        return Some(State::Ascent);
    }
    let t = tok_descent_vec();
    if bytes_eq(s, t.as_slice()) {
        return Some(State::Descent);
    }
    let t = tok_landed_vec();
    if bytes_eq(s, t.as_slice()) {
        return Some(State::Landed);
    }
    let t = tok_yeeted_vec();
    if bytes_eq(s, t.as_slice()) {
        return Some(State::Yeeted);
    }
    None
}

/// The literal token of a heat-shield flag.
pub open spec fn fmt_hs(v: HsDeployed) -> Seq<u8> {
    match v {
        HsDeployed::Deployed => tok_deployed(),
        HsDeployed::NotDeployed => tok_not_deployed(),
    }
}

/// Reads a heat-shield field: the literal tokens, matched exactly.
pub open spec fn spec_parse_hs(s: Seq<u8>) -> Option<HsDeployed> {
    if s == tok_deployed() {
        Some(HsDeployed::Deployed)
    } else if s == tok_not_deployed() {
        Some(HsDeployed::NotDeployed)
    } else {
        None
    }
}

fn parse_hs(s: &[u8]) -> (r: Option<HsDeployed>)
    ensures
        r == spec_parse_hs(s@),
{
    let t = tok_deployed_vec();
    if bytes_eq(s, t.as_slice()) {
        return Some(HsDeployed::Deployed);
    }
    let t = tok_not_deployed_vec();
    if bytes_eq(s, t.as_slice()) {
        return Some(HsDeployed::NotDeployed);
    }
    None
}

/// The literal token of a parachute flag.
pub open spec fn fmt_pc(v: PcDeployed) -> Seq<u8> {
    match v {
        PcDeployed::Deployed => tok_deployed(),
        PcDeployed::NotDeployed => tok_not_deployed(),
    }
}

/// Reads a parachute field: the literal tokens, matched exactly.
pub open spec fn spec_parse_pc(s: Seq<u8>) -> Option<PcDeployed> {
    if s == tok_deployed() {
        Some(PcDeployed::Deployed)
    } else if s == tok_not_deployed() {
        Some(PcDeployed::NotDeployed)
    } else {
        None
    }
}

fn parse_pc(s: &[u8]) -> (r: Option<PcDeployed>)
    ensures
        r == spec_parse_pc(s@),
{
    let t = tok_deployed_vec();
    if bytes_eq(s, t.as_slice()) {
        return Some(PcDeployed::Deployed);
    }
    let t = tok_not_deployed_vec();
    if bytes_eq(s, t.as_slice()) {
        return Some(PcDeployed::NotDeployed);
    }
    None
}

/// The literal token of a mast flag.
pub open spec fn fmt_mast(v: MastRaised) -> Seq<u8> {
    match v {
        MastRaised::Raised => tok_raised(),
        MastRaised::NotRaised => tok_not_raised(),
    }
}

/// Reads a mast field: the literal tokens, matched exactly.
pub open spec fn spec_parse_mast(s: Seq<u8>) -> Option<MastRaised> {
    if s == tok_raised() {
        Some(MastRaised::Raised)
    } else if s == tok_not_raised() {
        Some(MastRaised::NotRaised)
    } else {
        None
    }
}

fn parse_mast(s: &[u8]) -> (r: Option<MastRaised>)
    ensures
        r == spec_parse_mast(s@),
{
    let t = tok_raised_vec();
    if bytes_eq(s, t.as_slice()) {
        return Some(MastRaised::Raised);
    }
    let t = tok_not_raised_vec();
    if bytes_eq(s, t.as_slice()) {
        return Some(MastRaised::NotRaised);
    }
    None
}

/// Reading back an enum token gives the value it was written for.
pub proof fn lemma_enum_tokens_roundtrip()
    ensures
        forall|m: Mode| #[trigger] spec_parse_mode(fmt_mode(m)) == Some(m),
        forall|st: State| #[trigger] spec_parse_state(fmt_state(st)) == Some(st),
        forall|v: HsDeployed| #[trigger] spec_parse_hs(fmt_hs(v)) == Some(v),
        forall|v: PcDeployed| #[trigger] spec_parse_pc(fmt_pc(v)) == Some(v),
        forall|v: MastRaised| #[trigger] spec_parse_mast(fmt_mast(v)) == Some(v),
{
    assert(tok_flight().len() != tok_simulation().len());
    assert(tok_launchpad().len() != tok_ascent().len());
    assert(tok_ascent()[0] != tok_landed()[0]);
    assert(tok_ascent()[0] != tok_yeeted()[0]);
    assert(tok_landed()[0] != tok_yeeted()[0]);
    assert(tok_descent().len() != tok_launchpad().len());
    assert(tok_descent().len() != tok_ascent().len());
    assert(tok_landed().len() != tok_launchpad().len());
    assert(tok_landed().len() != tok_descent().len());
    assert(tok_yeeted().len() != tok_launchpad().len());
    assert(tok_yeeted().len() != tok_descent().len());
    assert(tok_deployed().len() != tok_not_deployed().len());
    assert(tok_raised().len() != tok_not_raised().len());
}

/// Mission time with centisecond resolution.
#[derive(Debug, Clone, Copy, PartialEq, Eq, Structural)]
pub struct MissionTime {
    pub h: u8,
    pub m: u8,
    pub s: u8,
    pub cs: u8,
}

impl MissionTime {
    /// All components fit their two-digit fields.
    pub open spec fn wf(self) -> bool {
        self.h < 100 && self.m < 100 && self.s < 100 && self.cs < 100
    }

    /// The time as whole centiseconds, for plotting against a time axis.
    pub fn total_centis(&self) -> (r: u32)
        ensures
            r == self.h as nat * 360000 + self.m as nat * 6000 + self.s as nat * 100
                + self.cs as nat,
    {
        self.h as u32 * 360000 + self.m as u32 * 6000 + self.s as u32 * 100 + self.cs as u32
    }
}

/// GPS time with second resolution.
#[derive(Debug, Clone, Copy, PartialEq, Eq, Structural)]
pub struct GpsTime {
    pub h: u8,
    pub m: u8,
    pub s: u8,
}

impl GpsTime {
    /// All components fit their two-digit fields.
    pub open spec fn wf(self) -> bool {
        self.h < 100 && self.m < 100 && self.s < 100
    }
}

/// The colon between time components.
pub open spec fn colon() -> u8 {
    58
}

/// The full stop before centiseconds and fractional digits.
pub open spec fn dot() -> u8 {
    46
}

/// The minus sign of a negative number.
pub open spec fn minus() -> u8 {
    45
}

/// Mission time written as HH:MM:SS.cc, all components zero-padded.
pub open spec fn fmt_mission_time(t: MissionTime) -> Seq<u8> {
    fmt_2d(t.h as nat) + seq![colon()] + fmt_2d(t.m as nat) + seq![colon()] + fmt_2d(t.s as nat)
        + seq![dot()] + fmt_2d(t.cs as nat)
}

/// Reads a mission time field of exactly the HH:MM:SS.cc shape.
pub open spec fn spec_parse_mission_time(s: Seq<u8>) -> Option<MissionTime> {
    if s.len() == 11 && s[2] == colon() && s[5] == colon() && s[8] == dot() {
        let h = spec_parse_2d(s.subrange(0, 2));
        let m = spec_parse_2d(s.subrange(3, 5));
        let sec = spec_parse_2d(s.subrange(6, 8));
        let cs = spec_parse_2d(s.subrange(9, 11));
        if h is Some && m is Some && sec is Some && cs is Some {
            Some(MissionTime { h: h->0, m: m->0, s: sec->0, cs: cs->0 })
        } else {
            None
        }
    } else {
        None
    }
}

fn parse_mission_time(s: &[u8]) -> (r: Option<MissionTime>)
    ensures
        r == spec_parse_mission_time(s@),
{
    if s.len() != 11 {
        return None;
    }
    if s[2] != 58 || s[5] != 58 || s[8] != 46 {
        return None;
    }
    let h = parse_2d(&s[0..2]);
    let m = parse_2d(&s[3..5]);
    let sec = parse_2d(&s[6..8]);
    let cs = parse_2d(&s[9..11]);
    match (h, m, sec, cs) {
        (Some(h), Some(m), Some(sec), Some(cs)) => Some(MissionTime { h, m, s: sec, cs }),
        _ => None,
    }
}

fn push_mission_time(out: &mut Vec<u8>, t: &MissionTime)
    requires
        t.wf(),
    ensures
        final(out)@ == old(out)@ + fmt_mission_time(*t),
{
    push_2d(out, t.h);
    out.push(58);
    push_2d(out, t.m);
    out.push(58);
    push_2d(out, t.s);
    out.push(46);
    push_2d(out, t.cs);
    assert(out@ =~= old(out)@ + fmt_mission_time(*t));
}

/// Reading back a written mission time gives the same time.
pub proof fn lemma_mission_time_roundtrip(t: MissionTime)
    requires
        t.wf(),
    ensures
        spec_parse_mission_time(fmt_mission_time(t)) == Some(t),
{
    let s = fmt_mission_time(t);
    assert(s.len() == 11);
    assert(s[2] == colon() && s[5] == colon() && s[8] == dot());
    assert(s.subrange(0, 2) =~= fmt_2d(t.h as nat));
    assert(s.subrange(3, 5) =~= fmt_2d(t.m as nat));
    assert(s.subrange(6, 8) =~= fmt_2d(t.s as nat));
    assert(s.subrange(9, 11) =~= fmt_2d(t.cs as nat));
    lemma_2d_roundtrip(t.h as nat);
    lemma_2d_roundtrip(t.m as nat);
    lemma_2d_roundtrip(t.s as nat);
    lemma_2d_roundtrip(t.cs as nat);
}

/// GPS time written as HH:MM:SS, all components zero-padded.
pub open spec fn fmt_gps_time(t: GpsTime) -> Seq<u8> {
    fmt_2d(t.h as nat) + seq![colon()] + fmt_2d(t.m as nat) + seq![colon()] + fmt_2d(t.s as nat)
}

/// Reads a GPS time field of exactly the HH:MM:SS shape.
pub open spec fn spec_parse_gps_time(s: Seq<u8>) -> Option<GpsTime> {
    if s.len() == 8 && s[2] == colon() && s[5] == colon() {
        let h = spec_parse_2d(s.subrange(0, 2));
        let m = spec_parse_2d(s.subrange(3, 5));
        let sec = spec_parse_2d(s.subrange(6, 8));
        if h is Some && m is Some && sec is Some {
            Some(GpsTime { h: h->0, m: m->0, s: sec->0 })
        } else {
            None
        }
    } else {
        None
    }
}

fn parse_gps_time(s: &[u8]) -> (r: Option<GpsTime>)
    ensures
        r == spec_parse_gps_time(s@),
{
    if s.len() != 8 {
        return None;
    }
    if s[2] != 58 || s[5] != 58 {
        return None;
    }
    let h = parse_2d(&s[0..2]);
    let m = parse_2d(&s[3..5]);
    let sec = parse_2d(&s[6..8]);
    match (h, m, sec) {
        (Some(h), Some(m), Some(sec)) => Some(GpsTime { h, m, s: sec }),
        _ => None,
    }
}

fn push_gps_time(out: &mut Vec<u8>, t: &GpsTime)
    requires
        t.wf(),
    ensures
        final(out)@ == old(out)@ + fmt_gps_time(*t),
{
    push_2d(out, t.h);
    out.push(58);
    push_2d(out, t.m);
    out.push(58);
    push_2d(out, t.s);
    assert(out@ =~= old(out)@ + fmt_gps_time(*t));
}

/// Reading back a written GPS time gives the same time.
pub proof fn lemma_gps_time_roundtrip(t: GpsTime)
    requires
        t.wf(),
    ensures
        spec_parse_gps_time(fmt_gps_time(t)) == Some(t),
{
    let s = fmt_gps_time(t);
    assert(s.len() == 8);
    assert(s[2] == colon() && s[5] == colon());
    assert(s.subrange(0, 2) =~= fmt_2d(t.h as nat));
    assert(s.subrange(3, 5) =~= fmt_2d(t.m as nat));
    assert(s.subrange(6, 8) =~= fmt_2d(t.s as nat));
    lemma_2d_roundtrip(t.h as nat);
    lemma_2d_roundtrip(t.m as nat);
    lemma_2d_roundtrip(t.s as nat);
}

/// The mathematical content of a plain decimal number.
#[verifier::ext_equal]
pub struct DecimalModel {
    /// Written with a leading minus sign?
    pub neg: bool,
    /// The value before the decimal point.
    pub int_part: u64,
    /// The digits after the decimal point, each below ten; empty when the
    /// number was written without a point.
    pub frac: Seq<u8>,
}

impl DecimalModel {
    /// Every fractional digit is a digit.
    pub open spec fn wf(self) -> bool {
        forall|i: int| 0 <= i < self.frac.len() ==> self.frac[i] < 10
    }
}

/// A number in plain decimal notation, kept exactly as written: sign,
/// integer part, and the digits after the point.
#[derive(Debug, Clone)]
pub struct Decimal {
    pub neg: bool,
    pub int_part: u64,
    pub frac: Vec<u8>,
}

impl View for Decimal {
    type V = DecimalModel;

    open spec fn view(&self) -> DecimalModel {
        DecimalModel { neg: self.neg, int_part: self.int_part, frac: self.frac@ }
    }
}

impl Decimal {
    /// Whether every fractional digit is below ten, so the number can be
    /// written out.
    pub fn is_wf(&self) -> (b: bool)
        ensures
            b == self@.wf(),
    {
        let mut i: usize = 0;
        while i < self.frac.len()
            invariant
                0 <= i <= self.frac@.len(),
                forall|j: int| 0 <= j < i ==> self.frac@[j] < 10,
            decreases self.frac@.len() - i,
        {
            if self.frac[i] >= 10 {
                assert(self@.frac[i as int] >= 10);
                return false;
            }
            i = i + 1;
        }
        true
    }
}

/// The index of the first full stop in `s`, or a negative number if none.
pub open spec fn first_dot(s: Seq<u8>) -> int
    decreases s.len(),
{
    if s.len() == 0 {
        -1
    } else if s[0] == dot() {
        0
    } else if first_dot(s.drop_first()) < 0 {
        -1
    } else {
        first_dot(s.drop_first()) + 1
    }
}

/// A position bearing a full stop with none before it is the first one.
pub proof fn lemma_first_dot_at(s: Seq<u8>, j: int)
    requires
        0 <= j < s.len(),
        s[j] == dot(),
        forall|i: int| 0 <= i < j ==> s[i] != dot(),
    ensures
        first_dot(s) == j,
    decreases j,
{
    if j > 0 {
        assert(s[0] != dot());
        lemma_first_dot_at(s.drop_first(), j - 1);
    }
}

/// Without any full stop the first index is negative.
pub proof fn lemma_first_dot_none(s: Seq<u8>)
    requires
        forall|i: int| 0 <= i < s.len() ==> s[i] != dot(),
    ensures
        first_dot(s) == -1,
    decreases s.len(),
{
    if s.len() > 0 {
        lemma_first_dot_none(s.drop_first());
    }
}

/// The digit values of a run of digit bytes.
pub open spec fn frac_digits_of(s: Seq<u8>) -> Seq<u8> {
    Seq::new(s.len(), |i: int| (s[i] - 48) as u8)
}

/// The digit bytes of a run of digit values.
pub open spec fn frac_bytes(fr: Seq<u8>) -> Seq<u8> {
    Seq::new(fr.len(), |i: int| (fr[i] + 48) as u8)
}

/// A decimal written out: optional minus sign, integer digits, and the
/// fractional digits after a point when there are any.
pub open spec fn fmt_decimal(d: DecimalModel) -> Seq<u8> {
    (if d.neg {
        seq![minus()]
    } else {
        Seq::<u8>::empty()
    }) + dec_digits(d.int_part as nat) + (if d.frac.len() == 0 {
        Seq::<u8>::empty()
    } else {
        seq![dot()] + frac_bytes(d.frac)
    })
}

/// Reads a plain decimal field: optional minus sign, integer digits, and
/// optionally a point followed by at least one digit.
pub open spec fn spec_parse_decimal(s: Seq<u8>) -> Option<DecimalModel> {
    let neg = s.len() > 0 && s[0] == minus();
    let body = if neg {
        s.drop_first()
    } else {
        s
    };
    let dp = first_dot(body);
    if dp < 0 {
        match spec_parse_u64(body) {
            Some(v) => Some(DecimalModel { neg, int_part: v, frac: Seq::<u8>::empty() }),
            None => None,
        }
    } else {
        let ip = body.subrange(0, dp);
        let fp = body.subrange(dp + 1, body.len() as int);
        match spec_parse_u64(ip) {
            Some(v) => if fp.len() >= 1 && all_digits(fp) {
                Some(DecimalModel { neg, int_part: v, frac: frac_digits_of(fp) })
            } else {
                None
            },
            None => None,
        }
    }
}

#[verifier::loop_isolation(false)]
fn parse_decimal(s: &[u8]) -> (r: Option<Decimal>)
    ensures
        match r {
            Some(d) => spec_parse_decimal(s@) == Some(d@),
            None => spec_parse_decimal(s@) == None::<DecimalModel>,
        },
{
    let neg = s.len() > 0 && s[0] == 45;
    let body: &[u8] = if neg {
        &s[1..s.len()]
    } else {
        s
    };
    proof {
        if neg {
            assert(body@ =~= s@.drop_first());
        }
    }
    let mut dp: usize = 0;
    let mut found = false;
    while dp < body.len() && !found
        invariant
            0 <= dp <= body@.len(),
            found ==> dp < body@.len() && body@[dp as int] == dot(),
            forall|i: int| 0 <= i < dp ==> body@[i] != dot(),
        decreases body@.len() - dp + (if found { 0int } else { 1int }),
    {
        if body[dp] == 46 {
            found = true;
        } else {
            dp = dp + 1;
        }
    }
    if !found {
        proof {
            lemma_first_dot_none(body@);
        }
        match parse_u64_digits(body) {
            Some(v) => {
                let d = Decimal { neg, int_part: v, frac: Vec::new() };
                assert(spec_parse_decimal(s@) == Some(d@));
                Some(d)
            },
            None => None,
        }
    } else {
        proof {
            lemma_first_dot_at(body@, dp as int);
        }
        let ip = &body[0..dp];
        let fp = &body[dp + 1..body.len()];
        let ghost sbody = if neg { s@.drop_first() } else { s@ };
        proof {
            assert(body@ == sbody);
            assert(ip@ == sbody.subrange(0, dp as int));
            assert(fp@ == sbody.subrange(dp as int + 1, sbody.len() as int));
        }
        match parse_u64_digits(ip) {
            Some(v) => {
                if fp.len() == 0 {
                    return None;
                }
                let mut fr: Vec<u8> = Vec::new();
                let mut k: usize = 0;
                while k < fp.len()
                    invariant
                        0 <= k <= fp@.len(),
                        fr@ =~= frac_digits_of(fp@.subrange(0, k as int)),
                        forall|i: int| 0 <= i < k ==> is_digit(fp@[i]),
                    decreases fp@.len() - k,
                {
                    let b = fp[k];
                    if b < 48 || b > 57 {
                        assert(!is_digit(fp@[k as int]));
                        assert(!all_digits(fp@));
                        return None;
                    }
                    fr.push(b - 48);
                    assert(fr@ =~= frac_digits_of(fp@.subrange(0, k as int + 1)));
                    k = k + 1;
                }
                assert(fp@.subrange(0, fp@.len() as int) =~= fp@);
                assert(all_digits(fp@));
                let d = Decimal { neg, int_part: v, frac: fr };
                assert(d@.frac =~= frac_digits_of(fp@));
                assert(spec_parse_decimal(s@) == Some(d@));
                Some(d)
            },
            None => None,
        }
    }
}

fn push_decimal(out: &mut Vec<u8>, d: &Decimal)
    requires
        d@.wf(),
    ensures
        final(out)@ == old(out)@ + fmt_decimal(d@),
{
    if d.neg {
        out.push(45);
    }
    push_dec_digits(out, d.int_part);
    if d.frac.len() > 0 {
        out.push(46);
        let ghost head = old(out)@ + (if d@.neg {
            seq![minus()]
        } else {
            Seq::<u8>::empty()
        }) + dec_digits(d@.int_part as nat) + seq![dot()];
        assert(out@ =~= head);
        let mut k: usize = 0;
        while k < d.frac.len()
            invariant
                0 <= k <= d.frac@.len(),
                d@.wf(),
                out@ =~= head + frac_bytes(d.frac@.subrange(0, k as int)),
            decreases d.frac@.len() - k,
        {
            assert(d@.frac[k as int] < 10);
            out.push(d.frac[k] + 48);
            proof {
                assert(frac_bytes(d.frac@.subrange(0, k as int + 1)) =~= frac_bytes(
                    d.frac@.subrange(0, k as int),
                ).push((d.frac@[k as int] + 48) as u8));
            }
            assert(out@ =~= head + frac_bytes(d.frac@.subrange(0, k as int + 1)));
            k = k + 1;
        }
        assert(d.frac@.subrange(0, d.frac@.len() as int) =~= d.frac@);
        assert(out@ =~= old(out)@ + fmt_decimal(d@));
    } else {
        assert(out@ =~= old(out)@ + fmt_decimal(d@));
    }
}

/// Reading back a written decimal gives the same number.
pub proof fn lemma_decimal_roundtrip(d: DecimalModel)
    requires
        d.wf(),
    ensures
        spec_parse_decimal(fmt_decimal(d)) == Some(d),
{
    lemma_dec_digits_val(d.int_part as nat);
    let s = fmt_decimal(d);
    let digits = dec_digits(d.int_part as nat);
    if d.neg {
        assert(s[0] == minus());
        assert(s.drop_first() =~= digits + (if d.frac.len() == 0 {
            Seq::<u8>::empty()
        } else {
            seq![dot()] + frac_bytes(d.frac)
        }));
    } else {
        assert(s[0] == digits[0]);
        assert(is_digit(digits[0]));
        assert(s[0] != minus());
    }
    let body = if d.neg {
        s.drop_first()
    } else {
        s
    };
    if d.frac.len() == 0 {
        assert(body =~= digits);
        assert(forall|i: int| 0 <= i < body.len() ==> body[i] != dot());
        lemma_first_dot_none(body);
        assert(spec_parse_u64(body) == Some(d.int_part));
        assert(spec_parse_decimal(s) == Some(DecimalModel { neg: d.neg, int_part: d.int_part, frac: Seq::<u8>::empty() }));
        assert(DecimalModel { neg: d.neg, int_part: d.int_part, frac: Seq::<u8>::empty() } =~= d);
    } else {
        assert(body =~= digits + seq![dot()] + frac_bytes(d.frac));
        let j = digits.len() as int;
        assert(body[j] == dot());
        assert(forall|i: int| 0 <= i < j ==> body[i] == digits[i] && is_digit(digits[i]));
        lemma_first_dot_at(body, j);
        assert(body.subrange(0, j) =~= digits);
        assert(body.subrange(j + 1, body.len() as int) =~= frac_bytes(d.frac));
        assert(spec_parse_u64(digits) == Some(d.int_part));
        let fp = frac_bytes(d.frac);
        assert(forall|i: int| 0 <= i < fp.len() ==> is_digit(#[trigger] fp[i]));
        assert(fp.len() >= 1);
        assert(frac_digits_of(fp) =~= d.frac);
        assert(spec_parse_decimal(s) == Some(DecimalModel { neg: d.neg, int_part: d.int_part, frac: frac_digits_of(fp) }));
        assert(DecimalModel { neg: d.neg, int_part: d.int_part, frac: frac_digits_of(fp) } =~= d);
    }
}

/// The number denoted by a field of digit bytes, if it fits in a `u16`.
pub open spec fn spec_parse_u16_field(s: Seq<u8>) -> Option<u16> {
    if s.len() >= 1 && all_digits(s) && digits_val(s) <= u16::MAX {
        Some(digits_val(s) as u16)
    } else {
        None
    }
}

fn parse_u16_field(s: &[u8]) -> (r: Option<u16>)
    ensures
        r == spec_parse_u16_field(s@),
{
    match parse_u64_digits(s) {
        Some(v) => {
            if v <= u16::MAX as u64 {
                Some(v as u16)
            } else {
                None
            }
        },
        None => None,
    }
}

/// The number denoted by a field of digit bytes, if it fits in a `u32`.
pub open spec fn spec_parse_u32_field(s: Seq<u8>) -> Option<u32> {
    if s.len() >= 1 && all_digits(s) && digits_val(s) <= u32::MAX {
        Some(digits_val(s) as u32)
    } else {
        None
    }
}

fn parse_u32_field(s: &[u8]) -> (r: Option<u32>)
    ensures
        r == spec_parse_u32_field(s@),
{
    match parse_u64_digits(s) {
        Some(v) => {
            if v <= u32::MAX as u64 {
                Some(v as u32)
            } else {
                None
            }
        },
        None => None,
    }
}

/// The number denoted by a field of digit bytes, if it fits in a `u8`.
pub open spec fn spec_parse_u8_field(s: Seq<u8>) -> Option<u8> {
    if s.len() >= 1 && all_digits(s) && digits_val(s) <= u8::MAX {
        Some(digits_val(s) as u8)
    } else {
        None
    }
}

fn parse_u8_field(s: &[u8]) -> (r: Option<u8>)
    ensures
        r == spec_parse_u8_field(s@),
{
    match parse_u64_digits(s) {
        Some(v) => {
            if v <= u8::MAX as u64 {
                Some(v as u8)
            } else {
                None
            }
        },
        None => None,
    }
}

fn push_mode(out: &mut Vec<u8>, v: Mode)
    ensures
        final(out)@ == old(out)@ + fmt_mode(v),
{
    match v {
        Mode::Flight => {
            let t = tok_flight_vec();
            push_bytes(out, t.as_slice());
        },
        Mode::Simulation => {
            let t = tok_simulation_vec();
            push_bytes(out, t.as_slice());
        },
    }
}

fn push_state(out: &mut Vec<u8>, v: State)
    ensures
        final(out)@ == old(out)@ + fmt_state(v),
{
    match v {
        State::Launchpad => {
            let t = tok_launchpad_vec();
            push_bytes(out, t.as_slice());
        },
        State::Ascent => {
            let t = tok_ascent_vec();
            push_bytes(out, t.as_slice());
        },
        State::Descent => {
            let t = tok_descent_vec();
            push_bytes(out, t.as_slice());
        },
        State::Landed => {
            let t = tok_landed_vec();
            push_bytes(out, t.as_slice());
        },
        State::Yeeted => {
            let t = tok_yeeted_vec();
            push_bytes(out, t.as_slice());
        },
    }
}

fn push_hs(out: &mut Vec<u8>, v: HsDeployed)
    ensures
        final(out)@ == old(out)@ + fmt_hs(v),
{
    match v {
        HsDeployed::Deployed => {
            let t = tok_deployed_vec();
            push_bytes(out, t.as_slice());
        },
        HsDeployed::NotDeployed => {
            let t = tok_not_deployed_vec();
            push_bytes(out, t.as_slice());
        },
    }
}

fn push_pc(out: &mut Vec<u8>, v: PcDeployed)
    ensures
        final(out)@ == old(out)@ + fmt_pc(v),
{
    match v {
        PcDeployed::Deployed => {
            let t = tok_deployed_vec();
            push_bytes(out, t.as_slice());
        },
        PcDeployed::NotDeployed => {
            let t = tok_not_deployed_vec();
            push_bytes(out, t.as_slice());
        },
    }
}

fn push_mast(out: &mut Vec<u8>, v: MastRaised)
    ensures
        final(out)@ == old(out)@ + fmt_mast(v),
{
    match v {
        MastRaised::Raised => {
            let t = tok_raised_vec();
            push_bytes(out, t.as_slice());
        },
        MastRaised::NotRaised => {
            let t = tok_not_raised_vec();
            push_bytes(out, t.as_slice());
        },
    }
}

/// Why a telemetry line failed to parse.
#[derive(Debug, Clone, Copy, PartialEq, Eq, Structural)]
pub enum ParseError {
    /// Not exactly the schema's number of comma-separated fields.
    FieldCountMismatch,
    /// The field at this position does not have its type's format.
    FieldFormatError { index: usize },
}

/// One sample of mission telemetry, in the fixed field order of the wire
/// format.
#[derive(Debug, Clone)]
pub struct Telemetry {
    pub team_id: u16,
    pub mission_time: MissionTime,
    pub packet_count: u32,
    pub mode: Mode,
    pub state: State,
    pub altitude: Decimal,
    pub hs_deployed: HsDeployed,
    pub pc_deployed: PcDeployed,
    pub mast_raised: MastRaised,
    pub temperature: Decimal,
    pub voltage: Decimal,
    pub pressure: Decimal,
    pub gps_time: GpsTime,
    pub gps_altitude: Decimal,
    pub gps_latitude: Decimal,
    pub gps_longitude: Decimal,
    pub gps_sats: u8,
    pub tilt_x: Decimal,
    pub tilt_y: Decimal,
    pub cmd_echo: Vec<u8>,
}

/// The mathematical content of a telemetry record.
#[verifier::ext_equal]
pub struct TelemetryModel {
    pub team_id: u16,
    pub mission_time: MissionTime,
    pub packet_count: u32,
    pub mode: Mode,
    pub state: State,
    pub altitude: DecimalModel,
    pub hs_deployed: HsDeployed,
    pub pc_deployed: PcDeployed,
    pub mast_raised: MastRaised,
    pub temperature: DecimalModel,
    pub voltage: DecimalModel,
    pub pressure: DecimalModel,
    pub gps_time: GpsTime,
    pub gps_altitude: DecimalModel,
    pub gps_latitude: DecimalModel,
    pub gps_longitude: DecimalModel,
    pub gps_sats: u8,
    pub tilt_x: DecimalModel,
    pub tilt_y: DecimalModel,
    pub cmd_echo: Seq<u8>,
}

impl View for Telemetry {
    type V = TelemetryModel;

    open spec fn view(&self) -> TelemetryModel {
        TelemetryModel {
            team_id: self.team_id,
            mission_time: self.mission_time,
            packet_count: self.packet_count,
            mode: self.mode,
            state: self.state,
            altitude: self.altitude@,
            hs_deployed: self.hs_deployed,
            pc_deployed: self.pc_deployed,
            mast_raised: self.mast_raised,
            temperature: self.temperature@,
            voltage: self.voltage@,
            pressure: self.pressure@,
            gps_time: self.gps_time,
            gps_altitude: self.gps_altitude@,
            gps_latitude: self.gps_latitude@,
            gps_longitude: self.gps_longitude@,
            gps_sats: self.gps_sats,
            tilt_x: self.tilt_x@,
            tilt_y: self.tilt_y@,
            cmd_echo: self.cmd_echo@,
        }
    }
}

impl TelemetryModel {
    /// The record's values fit the widths and character set of the wire
    /// format, so that it can be written out and read back.
    pub open spec fn wf(self) -> bool {
        &&& self.mission_time.wf()
        &&& self.gps_time.wf()
        &&& self.altitude.wf()
        &&& self.temperature.wf()
        &&& self.voltage.wf()
        &&& self.pressure.wf()
        &&& self.gps_altitude.wf()
        &&& self.gps_latitude.wf()
        &&& self.gps_longitude.wf()
        &&& self.tilt_x.wf()
        &&& self.tilt_y.wf()
        &&& comma_free(self.cmd_echo)
    }
}

/// The twenty written fields of a record, in wire order.
pub open spec fn fields_of(m: TelemetryModel) -> Seq<Seq<u8>> {
    seq![
        dec_digits(m.team_id as nat),
        fmt_mission_time(m.mission_time),
        dec_digits(m.packet_count as nat),
        fmt_mode(m.mode),
        fmt_state(m.state),
        fmt_decimal(m.altitude),
        fmt_hs(m.hs_deployed),
        fmt_pc(m.pc_deployed),
        fmt_mast(m.mast_raised),
        fmt_decimal(m.temperature),
        fmt_decimal(m.voltage),
        fmt_decimal(m.pressure),
        fmt_gps_time(m.gps_time),
        fmt_decimal(m.gps_altitude),
        fmt_decimal(m.gps_latitude),
        fmt_decimal(m.gps_longitude),
        dec_digits(m.gps_sats as nat),
        fmt_decimal(m.tilt_x),
        fmt_decimal(m.tilt_y),
        m.cmd_echo,
    ]
}

/// A record written out: the fields joined with commas.
pub open spec fn spec_format_telem(m: TelemetryModel) -> Seq<u8> {
    join_commas(fields_of(m))
}

/// How a line parses: split on commas, demand exactly the schema's field
/// count, then each field in order by its type, failing on the first bad one.
pub open spec fn spec_parse_telem(line: Seq<u8>) -> Result<TelemetryModel, ParseError> {
    let fs = split_commas(line);
    if fs.len() != 20 {
        Err(ParseError::FieldCountMismatch)
    } else {
        match spec_parse_u16_field(fs[0]) {
            None => Err(ParseError::FieldFormatError { index: 0 }),
            Some(team_id) =>
        match spec_parse_mission_time(fs[1]) {
            None => Err(ParseError::FieldFormatError { index: 1 }),
            Some(mission_time) =>
        match spec_parse_u32_field(fs[2]) {
            None => Err(ParseError::FieldFormatError { index: 2 }),
            Some(packet_count) =>
        match spec_parse_mode(fs[3]) {
            None => Err(ParseError::FieldFormatError { index: 3 }),
            Some(mode) =>
        match spec_parse_state(fs[4]) {
            None => Err(ParseError::FieldFormatError { index: 4 }),
            Some(state) =>
        match spec_parse_decimal(fs[5]) {
            None => Err(ParseError::FieldFormatError { index: 5 }),
            Some(altitude) =>
        match spec_parse_hs(fs[6]) {
            None => Err(ParseError::FieldFormatError { index: 6 }),
            Some(hs_deployed) =>
        match spec_parse_pc(fs[7]) {
            None => Err(ParseError::FieldFormatError { index: 7 }),
            Some(pc_deployed) =>
        match spec_parse_mast(fs[8]) {
            None => Err(ParseError::FieldFormatError { index: 8 }),
            Some(mast_raised) =>
        match spec_parse_decimal(fs[9]) {
            None => Err(ParseError::FieldFormatError { index: 9 }),
            Some(temperature) =>
        match spec_parse_decimal(fs[10]) {
            None => Err(ParseError::FieldFormatError { index: 10 }),
            Some(voltage) =>
        match spec_parse_decimal(fs[11]) {
            None => Err(ParseError::FieldFormatError { index: 11 }),
            Some(pressure) =>
        match spec_parse_gps_time(fs[12]) {
            None => Err(ParseError::FieldFormatError { index: 12 }),
            Some(gps_time) =>
        match spec_parse_decimal(fs[13]) {
            None => Err(ParseError::FieldFormatError { index: 13 }),
            Some(gps_altitude) =>
        match spec_parse_decimal(fs[14]) {
            None => Err(ParseError::FieldFormatError { index: 14 }),
            Some(gps_latitude) =>
        match spec_parse_decimal(fs[15]) {
            None => Err(ParseError::FieldFormatError { index: 15 }),
            Some(gps_longitude) =>
        match spec_parse_u8_field(fs[16]) {
            None => Err(ParseError::FieldFormatError { index: 16 }),
            Some(gps_sats) =>
        match spec_parse_decimal(fs[17]) {
            None => Err(ParseError::FieldFormatError { index: 17 }),
            Some(tilt_x) =>
        match spec_parse_decimal(fs[18]) {
            None => Err(ParseError::FieldFormatError { index: 18 }),
            Some(tilt_y) =>
            Ok(TelemetryModel {
                team_id,
                mission_time,
                packet_count,
                mode,
                state,
                altitude,
                hs_deployed,
                pc_deployed,
                mast_raised,
                temperature,
                voltage,
                pressure,
                gps_time,
                gps_altitude,
                gps_latitude,
                gps_longitude,
                gps_sats,
                tilt_x,
                tilt_y,
                cmd_echo: fs[19],
            }),
        },
        },
        },
        },
        },
        },
        },
        },
        },
        },
        },
        },
        },
        },
        },
        },
        },
        },
        }
    }
}

impl Telemetry {
    /// Parses one telemetry line. Exactly the schema's twenty comma-separated
    /// fields must be present, each in its type's format; the error names the
    /// first field that is not.
    pub fn parse(line: &[u8]) -> (r: Result<Telemetry, ParseError>)
        ensures
            match r {
                Ok(t) => spec_parse_telem(line@) == Ok::<TelemetryModel, ParseError>(t@),
                Err(e) => spec_parse_telem(line@) == Err::<TelemetryModel, ParseError>(e),
            },
    {
        let fields = split_commas_exec(line);
        let ghost fs = split_commas(line@);
        if fields.len() != 20 {
            return Err(ParseError::FieldCountMismatch);
        }
        assert(fields@[0]@ == fs[0]);
        let team_id = match parse_u16_field(fields[0].as_slice()) {
            Some(v) => v,
            None => return Err(ParseError::FieldFormatError { index: 0 }),
        };
        assert(fields@[1]@ == fs[1]);
        let mission_time = match parse_mission_time(fields[1].as_slice()) {
            Some(v) => v,
            None => return Err(ParseError::FieldFormatError { index: 1 }),
        };
        assert(fields@[2]@ == fs[2]);
        let packet_count = match parse_u32_field(fields[2].as_slice()) {
            Some(v) => v,
            None => return Err(ParseError::FieldFormatError { index: 2 }),
        };
        assert(fields@[3]@ == fs[3]);
        let mode = match parse_mode(fields[3].as_slice()) {
            Some(v) => v,
            None => return Err(ParseError::FieldFormatError { index: 3 }),
        };
        assert(fields@[4]@ == fs[4]);
        let state = match parse_state(fields[4].as_slice()) {
            Some(v) => v,
            None => return Err(ParseError::FieldFormatError { index: 4 }),
        };
        assert(fields@[5]@ == fs[5]);
        let altitude = match parse_decimal(fields[5].as_slice()) {
            Some(v) => v,
            None => return Err(ParseError::FieldFormatError { index: 5 }),
        };
        assert(fields@[6]@ == fs[6]);
        let hs_deployed = match parse_hs(fields[6].as_slice()) {
            Some(v) => v,
            None => return Err(ParseError::FieldFormatError { index: 6 }),
        };
        assert(fields@[7]@ == fs[7]);
        let pc_deployed = match parse_pc(fields[7].as_slice()) {
            Some(v) => v,
            None => return Err(ParseError::FieldFormatError { index: 7 }),
        };
        assert(fields@[8]@ == fs[8]);
        let mast_raised = match parse_mast(fields[8].as_slice()) {
            Some(v) => v,
            None => return Err(ParseError::FieldFormatError { index: 8 }),
        };
        assert(fields@[9]@ == fs[9]);
        let temperature = match parse_decimal(fields[9].as_slice()) {
            Some(v) => v,
            None => return Err(ParseError::FieldFormatError { index: 9 }),
        };
        assert(fields@[10]@ == fs[10]);
        let voltage = match parse_decimal(fields[10].as_slice()) {
            Some(v) => v,
            None => return Err(ParseError::FieldFormatError { index: 10 }),
        };
        assert(fields@[11]@ == fs[11]);
        let pressure = match parse_decimal(fields[11].as_slice()) {
            Some(v) => v,
            None => return Err(ParseError::FieldFormatError { index: 11 }),
        };
        assert(fields@[12]@ == fs[12]);
        let gps_time = match parse_gps_time(fields[12].as_slice()) {
            Some(v) => v,
            None => return Err(ParseError::FieldFormatError { index: 12 }),
        };
        assert(fields@[13]@ == fs[13]);
        let gps_altitude = match parse_decimal(fields[13].as_slice()) {
            Some(v) => v,
            None => return Err(ParseError::FieldFormatError { index: 13 }),
        };
        assert(fields@[14]@ == fs[14]);
        let gps_latitude = match parse_decimal(fields[14].as_slice()) {
            Some(v) => v,
            None => return Err(ParseError::FieldFormatError { index: 14 }),
        };
        assert(fields@[15]@ == fs[15]);
        let gps_longitude = match parse_decimal(fields[15].as_slice()) {
            Some(v) => v,
            None => return Err(ParseError::FieldFormatError { index: 15 }),
        };
        assert(fields@[16]@ == fs[16]);
        let gps_sats = match parse_u8_field(fields[16].as_slice()) {
            Some(v) => v,
            None => return Err(ParseError::FieldFormatError { index: 16 }),
        };
        assert(fields@[17]@ == fs[17]);
        let tilt_x = match parse_decimal(fields[17].as_slice()) {
            Some(v) => v,
            None => return Err(ParseError::FieldFormatError { index: 17 }),
        };
        assert(fields@[18]@ == fs[18]);
        let tilt_y = match parse_decimal(fields[18].as_slice()) {
            Some(v) => v,
            None => return Err(ParseError::FieldFormatError { index: 18 }),
        };
        assert(fields@[19]@ == fs[19]);
        let cmd_echo = copy_range(fields[19].as_slice(), 0, fields[19].len());
        assert(cmd_echo@ == fs[19]);
        let t = Telemetry {
            team_id,
            mission_time,
            packet_count,
            mode,
            state,
            altitude,
            hs_deployed,
            pc_deployed,
            mast_raised,
            temperature,
            voltage,
            pressure,
            gps_time,
            gps_altitude,
            gps_latitude,
            gps_longitude,
            gps_sats,
            tilt_x,
            tilt_y,
            cmd_echo,
        };
        assert(spec_parse_telem(line@) == Ok::<TelemetryModel, ParseError>(t@)) by {
            assert(spec_parse_telem(line@)->Ok_0 =~= t@);
        }
        Ok(t)
    }

    /// Whether the record fits the widths and character set of the wire
    /// format, so that `format` may write it out.
    pub fn is_wf(&self) -> (b: bool)
        ensures
            b == self@.wf(),
    {
        self.mission_time.h < 100 && self.mission_time.m < 100 && self.mission_time.s < 100
            && self.mission_time.cs < 100 && self.gps_time.h < 100 && self.gps_time.m < 100
            && self.gps_time.s < 100 && self.altitude.is_wf() && self.temperature.is_wf()
            && self.voltage.is_wf() && self.pressure.is_wf() && self.gps_altitude.is_wf()
            && self.gps_latitude.is_wf() && self.gps_longitude.is_wf() && self.tilt_x.is_wf()
            && self.tilt_y.is_wf() && comma_free_exec(self.cmd_echo.as_slice())
    }

    /// Writes the record out in the fixed field order and widths.
    #[verifier::rlimit(60)]
    pub fn format(&self) -> (r: Vec<u8>)
        requires
            self@.wf(),
        ensures
            r@ == spec_format_telem(self@),
    {
        let ghost fs = fields_of(self@);
        let mut parts: Vec<Vec<u8>> = Vec::new();
        let mut f: Vec<u8> = Vec::new();
        push_dec_digits(&mut f, self.team_id as u64);
        assert(f@ =~= fs[0]);
        parts.push(f);
        let mut f: Vec<u8> = Vec::new();
        push_mission_time(&mut f, &self.mission_time);
        assert(f@ =~= fs[1]);
        parts.push(f);
        let mut f: Vec<u8> = Vec::new();
        push_dec_digits(&mut f, self.packet_count as u64);
        assert(f@ =~= fs[2]);
        parts.push(f);
        let mut f: Vec<u8> = Vec::new();
        push_mode(&mut f, self.mode);
        assert(f@ =~= fs[3]);
        parts.push(f);
        let mut f: Vec<u8> = Vec::new();
        push_state(&mut f, self.state);
        assert(f@ =~= fs[4]);
        parts.push(f);
        let mut f: Vec<u8> = Vec::new();
        push_decimal(&mut f, &self.altitude);
        assert(f@ =~= fs[5]);
        parts.push(f);
        let mut f: Vec<u8> = Vec::new();
        push_hs(&mut f, self.hs_deployed);
        assert(f@ =~= fs[6]);
        parts.push(f);
        let mut f: Vec<u8> = Vec::new();
        push_pc(&mut f, self.pc_deployed);
        assert(f@ =~= fs[7]);
        parts.push(f);
        let mut f: Vec<u8> = Vec::new();
        push_mast(&mut f, self.mast_raised);
        assert(f@ =~= fs[8]);
        parts.push(f);
        let mut f: Vec<u8> = Vec::new();
        push_decimal(&mut f, &self.temperature);
        assert(f@ =~= fs[9]);
        parts.push(f);
        let mut f: Vec<u8> = Vec::new();
        push_decimal(&mut f, &self.voltage);
        assert(f@ =~= fs[10]);
        parts.push(f);
        let mut f: Vec<u8> = Vec::new();
        push_decimal(&mut f, &self.pressure);
        assert(f@ =~= fs[11]);
        parts.push(f);
        let mut f: Vec<u8> = Vec::new();
        push_gps_time(&mut f, &self.gps_time);
        assert(f@ =~= fs[12]);
        parts.push(f);
        let mut f: Vec<u8> = Vec::new();
        push_decimal(&mut f, &self.gps_altitude);
        assert(f@ =~= fs[13]);
        parts.push(f);
        let mut f: Vec<u8> = Vec::new();
        push_decimal(&mut f, &self.gps_latitude);
        assert(f@ =~= fs[14]);
        parts.push(f);
        let mut f: Vec<u8> = Vec::new();
        push_decimal(&mut f, &self.gps_longitude);
        assert(f@ =~= fs[15]);
        parts.push(f);
        let mut f: Vec<u8> = Vec::new();
        push_dec_digits(&mut f, self.gps_sats as u64);
        assert(f@ =~= fs[16]);
        parts.push(f);
        let mut f: Vec<u8> = Vec::new();
        push_decimal(&mut f, &self.tilt_x);
        assert(f@ =~= fs[17]);
        parts.push(f);
        let mut f: Vec<u8> = Vec::new();
        push_decimal(&mut f, &self.tilt_y);
        assert(f@ =~= fs[18]);
        parts.push(f);
        let mut f: Vec<u8> = Vec::new();
        push_bytes(&mut f, self.cmd_echo.as_slice());
        assert(f@ =~= fs[19]);
        parts.push(f);
        assert(bytes_view(parts@) =~= fs);
        let out = join_commas_exec(&parts);
        out
    }
}

/// Digit bytes contain no comma, no minus sign and no full stop.
proof fn lemma_digits_separator_free(s: Seq<u8>)
    requires
        all_digits(s),
    ensures
        comma_free(s),
        forall|i: int| 0 <= i < s.len() ==> s[i] != dot(),
        forall|i: int| 0 <= i < s.len() ==> s[i] != minus(),
{
}

/// Concatenation keeps fields comma-free.
proof fn lemma_comma_free_concat(a: Seq<u8>, b: Seq<u8>)
    requires
        comma_free(a),
        comma_free(b),
    ensures
        comma_free(a + b),
{
    assert forall|i: int| 0 <= i < (a + b).len() implies (a + b)[i] != comma() by {
        if i < a.len() {
            assert((a + b)[i] == a[i]);
        } else {
            assert((a + b)[i] == b[i - a.len()]);
        }
    }
}

/// A written two-digit component is comma-free.
proof fn lemma_fmt_2d_comma_free(n: nat)
    ensures
        comma_free(fmt_2d(n)),
        all_digits(fmt_2d(n)),
{
}

/// A written mission time is comma-free.
proof fn lemma_mission_time_comma_free(t: MissionTime)
    ensures
        comma_free(fmt_mission_time(t)),
{
    lemma_fmt_2d_comma_free(t.h as nat);
    lemma_fmt_2d_comma_free(t.m as nat);
    lemma_fmt_2d_comma_free(t.s as nat);
    lemma_fmt_2d_comma_free(t.cs as nat);
    assert(comma_free(seq![colon()]));
    assert(comma_free(seq![dot()]));
    lemma_comma_free_concat(fmt_2d(t.h as nat), seq![colon()]);
    lemma_comma_free_concat(fmt_2d(t.h as nat) + seq![colon()], fmt_2d(t.m as nat));
    lemma_comma_free_concat(fmt_2d(t.h as nat) + seq![colon()] + fmt_2d(t.m as nat), seq![colon()]);
    lemma_comma_free_concat(
        fmt_2d(t.h as nat) + seq![colon()] + fmt_2d(t.m as nat) + seq![colon()],
        fmt_2d(t.s as nat),
    );
    lemma_comma_free_concat(
        fmt_2d(t.h as nat) + seq![colon()] + fmt_2d(t.m as nat) + seq![colon()] + fmt_2d(
            t.s as nat,
        ),
        seq![dot()],
    );
    lemma_comma_free_concat(
        fmt_2d(t.h as nat) + seq![colon()] + fmt_2d(t.m as nat) + seq![colon()] + fmt_2d(
            t.s as nat,
        ) + seq![dot()],
        fmt_2d(t.cs as nat),
    );
}

/// A written GPS time is comma-free.
proof fn lemma_gps_time_comma_free(t: GpsTime)
    ensures
        comma_free(fmt_gps_time(t)),
{
    lemma_fmt_2d_comma_free(t.h as nat);
    lemma_fmt_2d_comma_free(t.m as nat);
    lemma_fmt_2d_comma_free(t.s as nat);
    assert(comma_free(seq![colon()]));
    lemma_comma_free_concat(fmt_2d(t.h as nat), seq![colon()]);
    lemma_comma_free_concat(fmt_2d(t.h as nat) + seq![colon()], fmt_2d(t.m as nat));
    lemma_comma_free_concat(fmt_2d(t.h as nat) + seq![colon()] + fmt_2d(t.m as nat), seq![colon()]);
    lemma_comma_free_concat(
        fmt_2d(t.h as nat) + seq![colon()] + fmt_2d(t.m as nat) + seq![colon()],
        fmt_2d(t.s as nat),
    );
}

/// A written decimal is comma-free.
proof fn lemma_decimal_comma_free(d: DecimalModel)
    requires
        d.wf(),
    ensures
        comma_free(fmt_decimal(d)),
{
    lemma_dec_digits_val(d.int_part as nat);
    let sign = if d.neg {
        seq![minus()]
    } else {
        Seq::<u8>::empty()
    };
    let digits = dec_digits(d.int_part as nat);
    lemma_digits_separator_free(digits);
    assert(comma_free(sign));
    lemma_comma_free_concat(sign, digits);
    if d.frac.len() == 0 {
        assert(fmt_decimal(d) =~= sign + digits);
    } else {
        let fb = frac_bytes(d.frac);
        assert(all_digits(fb));
        lemma_digits_separator_free(fb);
        assert(comma_free(seq![dot()]));
        lemma_comma_free_concat(seq![dot()], fb);
        lemma_comma_free_concat(sign + digits, seq![dot()] + fb);
        assert(fmt_decimal(d) =~= (sign + digits) + (seq![dot()] + fb));
    }
}

/// Every enum token is comma-free.
proof fn lemma_tokens_comma_free()
    ensures
        comma_free(tok_flight()),
        comma_free(tok_simulation()),
        comma_free(tok_launchpad()),
        comma_free(tok_ascent()),
        comma_free(tok_descent()),
        comma_free(tok_landed()),
        comma_free(tok_yeeted()),
        comma_free(tok_deployed()),
        comma_free(tok_not_deployed()),
        comma_free(tok_raised()),
        comma_free(tok_not_raised()),
{
}

/// Every field of a well-formed record is written comma-free.
proof fn lemma_fields_comma_free(m: TelemetryModel)
    requires
        m.wf(),
    ensures
        forall|i: int| 0 <= i < fields_of(m).len() ==> comma_free(#[trigger] fields_of(m)[i]),
{
    let fs = fields_of(m);
    lemma_dec_digits_val(m.team_id as nat);
    lemma_dec_digits_val(m.packet_count as nat);
    lemma_dec_digits_val(m.gps_sats as nat);
    lemma_digits_separator_free(dec_digits(m.team_id as nat));
    lemma_digits_separator_free(dec_digits(m.packet_count as nat));
    lemma_digits_separator_free(dec_digits(m.gps_sats as nat));
    lemma_mission_time_comma_free(m.mission_time);
    lemma_gps_time_comma_free(m.gps_time);
    lemma_tokens_comma_free();
    lemma_decimal_comma_free(m.altitude);
    lemma_decimal_comma_free(m.temperature);
    lemma_decimal_comma_free(m.voltage);
    lemma_decimal_comma_free(m.pressure);
    lemma_decimal_comma_free(m.gps_altitude);
    lemma_decimal_comma_free(m.gps_latitude);
    lemma_decimal_comma_free(m.gps_longitude);
    lemma_decimal_comma_free(m.tilt_x);
    lemma_decimal_comma_free(m.tilt_y);
    assert forall|i: int| 0 <= i < fs.len() implies comma_free(#[trigger] fs[i]) by {
        assert(comma_free(fmt_mode(m.mode)));
        assert(comma_free(fmt_state(m.state)));
        assert(comma_free(fmt_hs(m.hs_deployed)));
        assert(comma_free(fmt_pc(m.pc_deployed)));
        assert(comma_free(fmt_mast(m.mast_raised)));
    }
}

/// Writing a well-formed record out and parsing the line back gives exactly
/// the record: the parse and format functions are inverse on every record
/// within the schema's bounds.
pub proof fn lemma_parse_format_roundtrip(m: TelemetryModel)
    requires
        m.wf(),
    ensures
        spec_parse_telem(spec_format_telem(m)) == Ok::<TelemetryModel, ParseError>(m),
{
    let fs = fields_of(m);
    lemma_fields_comma_free(m);
    crate::fields::lemma_split_join(fs);
    assert(split_commas(spec_format_telem(m)) == fs);
    assert(fs.len() == 20);
    lemma_dec_digits_val(m.team_id as nat);
    lemma_dec_digits_val(m.packet_count as nat);
    lemma_dec_digits_val(m.gps_sats as nat);
    assert(spec_parse_u16_field(fs[0]) == Some(m.team_id));
    lemma_mission_time_roundtrip(m.mission_time);
    assert(spec_parse_u32_field(fs[2]) == Some(m.packet_count));
    lemma_enum_tokens_roundtrip();
    lemma_decimal_roundtrip(m.altitude);
    lemma_decimal_roundtrip(m.temperature);
    lemma_decimal_roundtrip(m.voltage);
    lemma_decimal_roundtrip(m.pressure);
    lemma_gps_time_roundtrip(m.gps_time);
    lemma_decimal_roundtrip(m.gps_altitude);
    lemma_decimal_roundtrip(m.gps_latitude);
    lemma_decimal_roundtrip(m.gps_longitude);
    assert(spec_parse_u8_field(fs[16]) == Some(m.gps_sats));
    lemma_decimal_roundtrip(m.tilt_x);
    lemma_decimal_roundtrip(m.tilt_y);
    assert(spec_parse_telem(spec_format_telem(m))->Ok_0 =~= m);
}

} // verus!
