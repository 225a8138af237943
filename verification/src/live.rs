//! Engine names and broadcast rooms.
//!
//! An engine's display name carries noise: a bitness marker such as `64-bit`
//! and a trailing version number. Two names denote the same engine exactly
//! when their normalized forms are equal; normalization case-folds, strips a
//! trailing bitness marker, then strips a trailing version token of the shape
//! `v?digits(.digits)?(.digits)?`, trimming surrounding whitespace.
use crate::text::{
    chars_eq, is_ws, lower_char, lower_char_exec, lower_seq, str_to_chars, trim, trim_chars,
    trim_end, trim_start,
};
use vstd::prelude::*;

verus! {

/// Decimal digit.
pub open spec fn is_digit(c: char) -> bool {
    48 <= (c as u32) && (c as u32) <= 57
}

pub fn is_digit_exec(c: char) -> (r: bool)
    ensures
        r == is_digit(c),
{
    let u = c as u32;
    48 <= u && u <= 57
}

/// First position at or after `i` that does not hold a digit.
pub open spec fn digits_end(s: Seq<char>, i: int) -> int
    decreases s.len() - i,
{
    if i < s.len() && is_digit(s[i]) {
        digits_end(s, i + 1)
    } else {
        i
    }
}

/// The characters of `s` from `p` on spell a dotted numeric token: one to
/// three runs of digits separated by single dots, reaching the end of `s`.
pub open spec fn version_body_at(s: Seq<char>, p: int) -> bool {
    let i1 = digits_end(s, p);
    &&& i1 > p
    &&& (i1 == s.len() || (s[i1] == '.' && {
        let i2 = digits_end(s, i1 + 1);
        &&& i2 > i1 + 1
        &&& (i2 == s.len() || (s[i2] == '.' && {
            let i3 = digits_end(s, i2 + 1);
            &&& i3 > i2 + 1
            &&& i3 == s.len()
        }))
    }))
}

/// The suffix of `s` starting at `p` is a version token: an optional leading
/// `v` followed by a dotted numeric token that runs to the end of `s`.
pub open spec fn version_at(s: Seq<char>, p: int) -> bool {
    if p < s.len() && s[p] == 'v' {
        version_body_at(s, p + 1)
    } else {
        version_body_at(s, p)
    }
}

/// Start of the longest version-token suffix of `s`, if any: the scan runs
/// left to right, so the first hit is the longest suffix.
pub open spec fn first_version_start(s: Seq<char>, p: int) -> Option<int>
    decreases s.len() - p,
{
    if p >= s.len() {
        None
    } else if version_at(s, p) {
        Some(p)
    } else {
        first_version_start(s, p + 1)
    }
}

pub proof fn lemma_first_version_start_bounds(s: Seq<char>, p: int)
    requires
        first_version_start(s, p) is Some,
    ensures
        p <= first_version_start(s, p)->Some_0 < s.len(),
    decreases s.len() - p,
{
    if p < s.len() && !version_at(s, p) {
        lemma_first_version_start_bounds(s, p + 1);
    }
}

/// Removes the version-token suffix, when one is present.
pub open spec fn remove_version(s: Seq<char>) -> Seq<char> {
    match first_version_start(s, 0) {
        Some(p) => s.take(p),
        None => s,
    }
}

pub open spec fn bitness_marker() -> Seq<char> {
    seq!['6', '4', '-', 'b', 'i', 't']
}

pub open spec fn ends_with_bitness(s: Seq<char>) -> bool {
    s.len() >= 6 && s.subrange(s.len() - 6, s.len() as int) == bitness_marker()
}

/// Removes a trailing `64-bit` marker, trimming around it.
pub open spec fn strip_bitness(s: Seq<char>) -> Seq<char> {
    if ends_with_bitness(s) {
        trim(s.take(s.len() - 6))
    } else {
        s
    }
}

/// Normalized form of an engine name: case-folded, bitness marker stripped,
/// trailing version token stripped, whitespace trimmed.
pub open spec fn spec_normalize(s: Seq<char>) -> Seq<char> {
    trim(remove_version(strip_bitness(lower_seq(s))))
}

fn digits_end_exec(v: &Vec<char>, i: usize) -> (r: usize)
    requires
        i <= v@.len(),
    ensures
        r == digits_end(v@, i as int),
        i <= r <= v@.len(),
    decreases v@.len() - i,
{
    let mut j = i;
    while j < v.len() && is_digit_exec(v[j])
        invariant
            i <= j <= v@.len(),
            digits_end(v@, i as int) == digits_end(v@, j as int),
        decreases v@.len() - j,
    {
        j = j + 1;
    }
    j
}

fn version_at_exec(v: &Vec<char>, p: usize) -> (r: bool)
    requires
        p <= v@.len(),
    ensures
        r == version_at(v@, p as int),
{
    if p < v.len() && v[p] == 'v' {
        version_body_at_exec(v, p + 1)
    } else {
        version_body_at_exec(v, p)
    }
}

fn version_body_at_exec(v: &Vec<char>, p: usize) -> (r: bool)
    requires
        p <= v@.len(),
    ensures
        r == version_body_at(v@, p as int),
{
    let n = v.len();
    let i1 = digits_end_exec(v, p);
    if i1 == p {
        return false;
    }
    if i1 == n {
        return true;
    }
    if v[i1] != '.' {
        return false;
    }
    let i2 = digits_end_exec(v, i1 + 1);
    if i2 == i1 + 1 {
        return false;
    }
    if i2 == n {
        return true;
    }
    if v[i2] != '.' {
        return false;
    }
    let i3 = digits_end_exec(v, i2 + 1);
    i3 > i2 + 1 && i3 == n
}

fn find_version_start(v: &Vec<char>) -> (r: Option<usize>)
    ensures
        match r {
            Some(p) => first_version_start(v@, 0) == Some(p as int) && p <= v@.len(),
            None => first_version_start(v@, 0) is None,
        },
{
    let n = v.len();
    let mut p: usize = 0;
    while p < n
        invariant
            0 <= p <= n == v@.len(),
            first_version_start(v@, 0) == first_version_start(v@, p as int),
        decreases n - p,
    {
        if version_at_exec(v, p) {
            return Some(p);
        }
        p = p + 1;
    }
    None
}

/// Every character of the sequence is already case-folded.
pub open spec fn folded(s: Seq<char>) -> bool {
    forall|i: int| 0 <= i < s.len() ==> lower_char(#[trigger] s[i]) == s[i]
}

proof fn lemma_trim_end_folded(s: Seq<char>)
    requires
        folded(s),
    ensures
        folded(trim_end(s)),
    decreases s.len(),
{
    if s.len() > 0 && is_ws(s.last()) {
        assert(folded(s.drop_last()));
        lemma_trim_end_folded(s.drop_last());
    }
}

proof fn lemma_trim_start_folded(s: Seq<char>)
    requires
        folded(s),
    ensures
        folded(trim_start(s)),
    decreases s.len(),
{
    if s.len() > 0 && is_ws(s.first()) {
        assert(folded(s.drop_first()));
        lemma_trim_start_folded(s.drop_first());
    }
}

proof fn lemma_trim_folded(s: Seq<char>)
    requires
        folded(s),
    ensures
        folded(trim(s)),
{
    lemma_trim_end_folded(s);
    lemma_trim_start_folded(trim_end(s));
}

/// The output of normalization is entirely case-folded.
pub proof fn lemma_normalize_folded(s: Seq<char>)
    ensures
        folded(spec_normalize(s)),
{
    let x0 = lower_seq(s);
    assert(folded(x0));
    let x1 = strip_bitness(x0);
    if ends_with_bitness(x0) {
        assert(folded(x0.take(x0.len() - 6)));
        lemma_trim_folded(x0.take(x0.len() - 6));
    }
    assert(folded(x1));
    let x2 = remove_version(x1);
    match first_version_start(x1, 0) {
        Some(p) => {
            lemma_first_version_start_bounds(x1, 0);
            assert(folded(x1.take(p)));
        },
        None => {},
    }
    assert(folded(x2));
    lemma_trim_folded(x2);
}

/// Normalization is idempotent on every name whose normalized form keeps no
/// strippable suffix; a second pass then finds nothing left to fold, strip or
/// trim. (A name such as `x 64-bit 64-bit` normalizes to `x 64-bit`, which a
/// second pass would shorten further; the hypotheses leave such names out.)
pub proof fn lemma_normalize_idempotent(s: Seq<char>)
    requires
        !ends_with_bitness(spec_normalize(s)),
        first_version_start(spec_normalize(s), 0) is None,
    ensures
        spec_normalize(spec_normalize(s)) == spec_normalize(s),
{
    let n = spec_normalize(s);
    lemma_normalize_folded(s);
    assert(lower_seq(n) =~= n);
    assert(strip_bitness(lower_seq(n)) == n);
    assert(remove_version(strip_bitness(lower_seq(n))) == n);
    let x2 = remove_version(strip_bitness(lower_seq(s)));
    crate::text::lemma_trim_idempotent(x2);
    assert(spec_normalize(n) == trim(n));
    assert(trim(n) == n);
}

/// Executable normalization; returns the normalized name as characters.
pub fn normalize_chars(raw: &str) -> (r: Vec<char>)
    ensures
        r@ == spec_normalize(raw@),
{
    let cs = str_to_chars(raw);
    let n = cs.len();
    let mut low: Vec<char> = Vec::new();
    let mut i: usize = 0;
    while i < n
        invariant
            0 <= i <= n == cs@.len(),
            low@.len() == i,
            forall|k: int| 0 <= k < i ==> low@[k] == lower_char(cs@[k]),
        decreases n - i,
    {
        low.push(lower_char_exec(cs[i]));
        i = i + 1;
    }
    assert(low@ =~= lower_seq(cs@));
    let mut cur = low;
    let ghost lowered: Seq<char> = cur@;
    if cur.len() >= 6 {
        let m = cur.len();
        let tail_is_marker = cur[m - 6] == '6' && cur[m - 5] == '4' && cur[m - 4] == '-'
            && cur[m - 3] == 'b' && cur[m - 2] == 'i' && cur[m - 1] == 't';
        proof {
            if tail_is_marker {
                assert(cur@.subrange(cur@.len() - 6, cur@.len() as int) =~= bitness_marker());
            } else {
                assert(cur@.subrange(cur@.len() - 6, cur@.len() as int) != bitness_marker());
            }
        }
        if tail_is_marker {
            cur.truncate(m - 6);
            cur = trim_chars(cur);
        }
    }
    assert(cur@ == strip_bitness(lowered));
    let ghost stripped: Seq<char> = cur@;
    match find_version_start(&cur) {
        Some(p) => {
            cur.truncate(p);
            assert(cur@ =~= stripped.take(p as int));
        },
        None => {},
    }
    assert(cur@ == remove_version(stripped));
    let r = trim_chars(cur);
    assert(r@ == spec_normalize(cs@));
    r
}

/// A free-text engine name; two names denote the same engine exactly when
/// their normalized forms are equal.
#[derive(Debug)]
pub struct EngineName(String);

impl View for EngineName {
    type V = Seq<char>;

    closed spec fn view(&self) -> Seq<char> {
        self.0@
    }
}

impl EngineName {
    pub fn new(name: &str) -> (r: Self)
        ensures
            r@ == name@,
    {
        EngineName(name.to_owned())
    }

    /// The raw name as given.
    pub fn name(&self) -> (r: &str)
        ensures
            r@ == self@,
    {
        self.0.as_str()
    }

    /// The normalized form of the name, as characters.
    pub fn normalized(&self) -> (r: Vec<char>)
        ensures
            r@ == spec_normalize(self@),
    {
        normalize_chars(self.0.as_str())
    }
}

impl Clone for EngineName {
    fn clone(&self) -> (r: Self)
        ensures
            r@ == self@,
    {
        EngineName(self.0.clone())
    }
}

impl PartialEq for EngineName {
    fn eq(&self, other: &Self) -> (r: bool) {
        chars_eq(&self.normalized(), &other.normalized())
    }
}

impl vstd::std_specs::cmp::PartialEqSpecImpl for EngineName {
    open spec fn obeys_eq_spec() -> bool {
        true
    }

    open spec fn eq_spec(&self, other: &Self) -> bool {
        spec_normalize(self@) == spec_normalize(other@)
    }
}

/// A player of a broadcast game, identified by an engine name.
#[derive(Debug)]
pub struct CcrlLivePlayer {
    name: EngineName,
}

impl View for CcrlLivePlayer {
    type V = Seq<char>;

    closed spec fn view(&self) -> Seq<char> {
        self.name@
    }
}

impl CcrlLivePlayer {
    pub fn new(name: &str) -> (r: Self)
        ensures
            r@ == name@,
    {
        CcrlLivePlayer { name: EngineName::new(name) }
    }

    /// The raw display name of the player.
    pub fn name(&self) -> (r: &str)
        ensures
            r@ == self@,
    {
        self.name.name()
    }

    /// Whether this player is the engine called `name`, up to normalization.
    pub fn matches(&self, name: &str) -> (r: bool)
        ensures
            r == (spec_normalize(self@) == spec_normalize(name@)),
    {
        self.name == EngineName::new(name)
    }
}

impl Clone for CcrlLivePlayer {
    fn clone(&self) -> (r: Self)
        ensures
            r@ == self@,
    {
        CcrlLivePlayer { name: self.name.clone() }
    }
}

/// An independently identified live-broadcast channel.
#[derive(Debug)]
pub struct CcrlLiveRoom {
    code: String,
}

impl View for CcrlLiveRoom {
    type V = Seq<char>;

    closed spec fn view(&self) -> Seq<char> {
        self.code@
    }
}

impl CcrlLiveRoom {
    pub fn new(code: &str) -> (r: Self)
        ensures
            r@ == code@,
    {
        CcrlLiveRoom { code: code.to_owned() }
    }

    pub fn code(&self) -> (r: String)
        ensures
            r@ == self@,
    {
        self.code.clone()
    }

    fn ccrl_url(suffix: &str) -> (r: String)
        ensures
            r@ == "https://ccrl.live/"@ + suffix@,
    {
        let mut url = String::new();
        url.append("https://ccrl.live/");
        url.append(suffix);
        url
    }

    /// Address of the room's live page.
    pub fn url(&self) -> (r: String)
        ensures
            r@ == "https://ccrl.live/"@ + self@,
    {
        Self::ccrl_url(self.code.as_str())
    }

    /// Address of the room's current game document.
    pub fn pgn_url(&self) -> (r: String)
        ensures
            r@ == "https://ccrl.live/"@ + self@ + "/pgn"@,
    {
        let mut url = Self::ccrl_url(self.code.as_str());
        url.append("/pgn");
        url
    }
}

impl Clone for CcrlLiveRoom {
    fn clone(&self) -> (r: Self)
        ensures
            r@ == self@,
    {
        CcrlLiveRoom { code: self.code.clone() }
    }
}

} // verus!
