//! Game-notation documents.
//!
//! A document holds bracketed header lines (`[Key "Value"]`) followed by move
//! text: move numbers, moves, brace comments and parenthesised variations.
//! The parser keeps the main line only, skipping variations whole, and flags
//! each move as a book move exactly when the comment right after it is the
//! book sentinel. A comment with no preceding unconsumed move, a missing
//! player or date header, and an empty move list are fatal errors.
use crate::live::CcrlLivePlayer;
use crate::text::{is_ws, str_to_chars};
use vstd::prelude::*;

verus! {

/// Why a document was rejected.
#[derive(Debug, Clone, Copy, PartialEq, Eq, Structural)]
pub enum ParseError {
    /// A brace comment appeared with no unconsumed move before it.
    CommentWithoutMove,
    /// Two moves in a row without the annotation comment in between.
    ConsecutiveMoves,
    /// A brace comment never closed.
    UnclosedComment,
    /// A variation never closed.
    UnclosedVariation,
    /// A header line did not have the `[Key "Value"]` shape.
    MalformedHeader,
    /// A stray closing brace or parenthesis in the move text.
    UnexpectedChar,
    /// No white-player header.
    MissingWhite,
    /// No black-player header.
    MissingBlack,
    /// No date header.
    MissingDate,
    /// The document held no annotated move.
    EmptyMoveList,
}

/// Mathematical content of a parsed game.
#[verifier::ext_equal]
pub ghost struct GameView {
    pub white: Seq<char>,
    pub black: Seq<char>,
    pub date: Seq<char>,
    pub site: Seq<char>,
    pub moves: Seq<(Seq<char>, bool)>,
}

/// Parser state: headers seen so far, finished moves, and a move waiting for
/// its annotation comment.
#[verifier::ext_equal]
pub ghost struct BuilderView {
    pub white: Option<Seq<char>>,
    pub black: Option<Seq<char>>,
    pub date: Option<Seq<char>>,
    pub site: Option<Seq<char>>,
    pub moves: Seq<(Seq<char>, bool)>,
    pub pending: Option<Seq<char>>,
}

pub open spec fn init_builder() -> BuilderView {
    BuilderView {
        white: None,
        black: None,
        date: None,
        site: None,
        moves: Seq::empty(),
        pending: None,
    }
}

/// The comment content that marks a move as coming from the opening book.
pub open spec fn book_sentinel() -> Seq<char> {
    seq!['(', 'B', 'o', 'o', 'k', ')']
}

pub open spec fn white_key() -> Seq<char> {
    seq!['W', 'h', 'i', 't', 'e']
}

pub open spec fn black_key() -> Seq<char> {
    seq!['B', 'l', 'a', 'c', 'k']
}

pub open spec fn date_key() -> Seq<char> {
    seq!['D', 'a', 't', 'e']
}

pub open spec fn site_key() -> Seq<char> {
    seq!['S', 'i', 't', 'e']
}

/// A game-termination token of the move text.
pub open spec fn is_result_token(t: Seq<char>) -> bool {
    ||| t == seq!['1', '-', '0']
    ||| t == seq!['0', '-', '1']
    ||| t == seq!['1', '/', '2', '-', '1', '/', '2']
    ||| t == seq!['*']
}

/// Characters that end a bare token of the move text.
pub open spec fn token_break(c: char) -> bool {
    is_ws(c) || c == '{' || c == '}' || c == '(' || c == ')' || c == '['
}

/// First position at or after `i` that does not hold whitespace.
pub open spec fn skip_ws(s: Seq<char>, i: int) -> int
    decreases s.len() - i,
{
    if i < s.len() && is_ws(s[i]) {
        skip_ws(s, i + 1)
    } else {
        i
    }
}

pub proof fn lemma_skip_ws_bounds(s: Seq<char>, i: int)
    requires
        0 <= i <= s.len(),
    ensures
        i <= skip_ws(s, i) <= s.len(),
    decreases s.len() - i,
{
    if i < s.len() && is_ws(s[i]) {
        lemma_skip_ws_bounds(s, i + 1);
    }
}

/// First position at or after `i` that ends a bare token.
pub open spec fn token_end(s: Seq<char>, i: int) -> int
    decreases s.len() - i,
{
    if i < s.len() && !token_break(s[i]) {
        token_end(s, i + 1)
    } else {
        i
    }
}

pub proof fn lemma_token_end_bounds(s: Seq<char>, i: int)
    requires
        0 <= i <= s.len(),
    ensures
        i <= token_end(s, i) <= s.len(),
    decreases s.len() - i,
{
    if i < s.len() && !token_break(s[i]) {
        lemma_token_end_bounds(s, i + 1);
    }
}

/// Position of the first occurrence of `c` at or after `i`.
pub open spec fn scan_to(s: Seq<char>, i: int, c: char) -> Option<int>
    decreases s.len() - i,
{
    if i >= s.len() {
        None
    } else if s[i] == c {
        Some(i)
    } else {
        scan_to(s, i + 1, c)
    }
}

pub proof fn lemma_scan_to_bounds(s: Seq<char>, i: int, c: char)
    requires
        scan_to(s, i, c) is Some,
    ensures
        i <= scan_to(s, i, c)->Some_0 < s.len(),
    decreases s.len() - i,
{
    if i < s.len() && s[i] != c {
        lemma_scan_to_bounds(s, i + 1, c);
    }
}

/// Position right after the parenthesis that closes a variation opened just
/// before `i`, skipping brace comments (which may hold parentheses) whole;
/// `None` when the variation never closes.
pub open spec fn skip_variation(s: Seq<char>, i: int, depth: int, in_comment: bool) -> Option<int>
    decreases s.len() - i,
{
    if i >= s.len() {
        None
    } else if in_comment {
        if s[i] == '}' {
            skip_variation(s, i + 1, depth, false)
        } else {
            skip_variation(s, i + 1, depth, true)
        }
    } else if s[i] == '{' {
        skip_variation(s, i + 1, depth, true)
    } else if s[i] == '(' {
        skip_variation(s, i + 1, depth + 1, false)
    } else if s[i] == ')' {
        if depth == 0 {
            Some(i + 1)
        } else {
            skip_variation(s, i + 1, depth - 1, false)
        }
    } else {
        skip_variation(s, i + 1, depth, false)
    }
}

pub proof fn lemma_skip_variation_bounds(s: Seq<char>, i: int, depth: int, in_comment: bool)
    requires
        skip_variation(s, i, depth, in_comment) is Some,
    ensures
        i < skip_variation(s, i, depth, in_comment)->Some_0 <= s.len(),
    decreases s.len() - i,
{
    if i < s.len() {
        if in_comment {
            if s[i] == '}' {
                lemma_skip_variation_bounds(s, i + 1, depth, false);
            } else {
                lemma_skip_variation_bounds(s, i + 1, depth, true);
            }
        } else if s[i] == '{' {
            lemma_skip_variation_bounds(s, i + 1, depth, true);
        } else if s[i] == '(' {
            lemma_skip_variation_bounds(s, i + 1, depth + 1, false);
        } else if s[i] == ')' {
            if depth != 0 {
                lemma_skip_variation_bounds(s, i + 1, depth - 1, false);
            }
        } else {
            lemma_skip_variation_bounds(s, i + 1, depth, false);
        }
    }
}

/// Reads one `[Key "Value"]` header whose `[` stands at `i`; yields the key,
/// the value and the position right after `]`, or `None` when malformed.
pub open spec fn parse_header_at(s: Seq<char>, i: int) -> Option<(Seq<char>, Seq<char>, int)> {
    let key_end = token_end(s, i + 1);
    let q1 = skip_ws(s, key_end);
    if q1 < s.len() && s[q1] == '"' {
        match scan_to(s, q1 + 1, '"') {
            Some(ve) => {
                let q2 = skip_ws(s, ve + 1);
                if q2 < s.len() && s[q2] == ']' {
                    Some((s.subrange(i + 1, key_end), s.subrange(q1 + 1, ve), q2 + 1))
                } else {
                    None
                }
            },
            None => None,
        }
    } else {
        None
    }
}

pub proof fn lemma_parse_header_bounds(s: Seq<char>, i: int)
    requires
        0 <= i < s.len(),
        parse_header_at(s, i) is Some,
    ensures
        i < parse_header_at(s, i)->Some_0.2 <= s.len(),
{
    lemma_token_end_bounds(s, i + 1);
    let key_end = token_end(s, i + 1);
    lemma_skip_ws_bounds(s, key_end);
    let q1 = skip_ws(s, key_end);
    lemma_scan_to_bounds(s, q1 + 1, '"');
    let ve = scan_to(s, q1 + 1, '"')->Some_0;
    lemma_skip_ws_bounds(s, ve + 1);
}

/// Records a header in the parser state; unknown keys are ignored.
pub open spec fn header_update(st: BuilderView, key: Seq<char>, value: Seq<char>) -> BuilderView {
    if key == white_key() {
        BuilderView { white: Some(value), ..st }
    } else if key == black_key() {
        BuilderView { black: Some(value), ..st }
    } else if key == date_key() {
        BuilderView { date: Some(value), ..st }
    } else if key == site_key() {
        BuilderView { site: Some(value), ..st }
    } else {
        st
    }
}

/// Closes the game: the required headers must have been seen and at least one
/// annotated move collected; a move still waiting for its comment is dropped.
pub open spec fn finish(st: BuilderView) -> Result<GameView, ParseError> {
    match st.white {
        None => Err(ParseError::MissingWhite),
        Some(white) => match st.black {
            None => Err(ParseError::MissingBlack),
            Some(black) => match st.date {
                None => Err(ParseError::MissingDate),
                Some(date) => if st.moves.len() == 0 {
                    Err(ParseError::EmptyMoveList)
                } else {
                    Ok(
                        GameView {
                            white,
                            black,
                            date,
                            site: match st.site {
                                Some(site) => site,
                                None => Seq::empty(),
                            },
                            moves: st.moves,
                        },
                    )
                },
            },
        },
    }
}

/// One step of the parser per character or token, from position `i` on.
pub open spec fn parse_from(s: Seq<char>, i: int, st: BuilderView) -> Result<
    GameView,
    ParseError,
>
    decreases s.len() - i,
{
    if i < 0 || i >= s.len() {
        finish(st)
    } else if is_ws(s[i]) {
        parse_from(s, i + 1, st)
    } else if s[i] == '{' {
        match scan_to(s, i + 1, '}') {
            None => Err(ParseError::UnclosedComment),
            Some(j) => match st.pending {
                None => Err(ParseError::CommentWithoutMove),
                Some(san) => {
                    proof {
                        lemma_scan_to_bounds(s, i + 1, '}');
                    }
                    let is_book = s.subrange(i + 1, j) == book_sentinel();
                    parse_from(
                        s,
                        j + 1,
                        BuilderView { moves: st.moves.push((san, is_book)), pending: None, ..st },
                    )
                },
            },
        }
    } else if s[i] == '(' {
        match skip_variation(s, i + 1, 0, false) {
            None => Err(ParseError::UnclosedVariation),
            Some(j) => {
                proof {
                    lemma_skip_variation_bounds(s, i + 1, 0, false);
                }
                parse_from(s, j, st)
            },
        }
    } else if s[i] == '[' {
        if st.moves.len() > 0 || st.pending is Some {
            finish(st)
        } else {
            match parse_header_at(s, i) {
                None => Err(ParseError::MalformedHeader),
                Some((key, value, next)) => {
                    proof {
                        lemma_parse_header_bounds(s, i);
                    }
                    parse_from(s, next, header_update(st, key, value))
                },
            }
        }
    } else if s[i] == '}' || s[i] == ')' {
        Err(ParseError::UnexpectedChar)
    } else {
        let j = token_end(s, i);
        let tok = s.subrange(i, j);
        proof {
            lemma_token_end_bounds(s, i + 1);
            assert(token_end(s, i) == token_end(s, i + 1));
        }
        if is_result_token(tok) {
            finish(st)
        } else if tok[0] == '$' || crate::live::is_digit(tok[0]) {
            parse_from(s, j, st)
        } else {
            match st.pending {
                Some(_) => Err(ParseError::ConsecutiveMoves),
                None => parse_from(s, j, BuilderView { pending: Some(tok), ..st }),
            }
        }
    }
}

/// What parsing a whole document yields.
pub open spec fn spec_parse(s: Seq<char>) -> Result<GameView, ParseError> {
    parse_from(s, 0, init_builder())
}

fn skip_ws_exec(cs: &Vec<char>, i: usize) -> (r: usize)
    requires
        i <= cs@.len(),
    ensures
        r == skip_ws(cs@, i as int),
        i <= r <= cs@.len(),
    decreases cs@.len() - i,
{
    let mut j = i;
    while j < cs.len() && crate::text::is_ws_exec(cs[j])
        invariant
            i <= j <= cs@.len(),
            skip_ws(cs@, i as int) == skip_ws(cs@, j as int),
        decreases cs@.len() - j,
    {
        j = j + 1;
    }
    j
}

fn token_end_exec(cs: &Vec<char>, i: usize) -> (r: usize)
    requires
        i <= cs@.len(),
    ensures
        r == token_end(cs@, i as int),
        i <= r <= cs@.len(),
    decreases cs@.len() - i,
{
    let mut j = i;
    while j < cs.len() && !token_break_exec(cs[j])
        invariant
            i <= j <= cs@.len(),
            token_end(cs@, i as int) == token_end(cs@, j as int),
        decreases cs@.len() - j,
    {
        j = j + 1;
    }
    j
}

fn token_break_exec(c: char) -> (r: bool)
    ensures
        r == token_break(c),
{
    crate::text::is_ws_exec(c) || c == '{' || c == '}' || c == '(' || c == ')' || c == '['
}

fn scan_to_exec(cs: &Vec<char>, i: usize, c: char) -> (r: Option<usize>)
    requires
        i <= cs@.len(),
    ensures
        match r {
            Some(j) => scan_to(cs@, i as int, c) == Some(j as int) && i <= j < cs@.len(),
            None => scan_to(cs@, i as int, c) is None,
        },
{
    let n = cs.len();
    let mut j = i;
    while j < n
        invariant
            i <= j <= n == cs@.len(),
            scan_to(cs@, i as int, c) == scan_to(cs@, j as int, c),
        decreases n - j,
    {
        if cs[j] == c {
            return Some(j);
        }
        j = j + 1;
    }
    None
}

fn skip_variation_exec(cs: &Vec<char>, i: usize) -> (r: Option<usize>)
    requires
        i <= cs@.len(),
    ensures
        match r {
            Some(j) => skip_variation(cs@, i as int, 0, false) == Some(j as int) && i < j
                <= cs@.len(),
            None => skip_variation(cs@, i as int, 0, false) is None,
        },
{
    let n = cs.len();
    let mut j = i;
    let mut depth: usize = 0;
    let mut in_comment = false;
    while j < n
        invariant
            i <= j <= n == cs@.len(),
            depth <= j,
            skip_variation(cs@, i as int, 0, false) == skip_variation(
                cs@,
                j as int,
                depth as int,
                in_comment,
            ),
        decreases n - j,
    {
        let c = cs[j];
        if in_comment {
            if c == '}' {
                in_comment = false;
            }
        } else if c == '{' {
            in_comment = true;
        } else if c == '(' {
            depth = depth + 1;
        } else if c == ')' {
            if depth == 0 {
                proof {
                    lemma_skip_variation_bounds(cs@, i as int, 0, false);
                }
                return Some(j + 1);
            }
            depth = depth - 1;
        }
        j = j + 1;
    }
    None
}

/// Compares the characters of `cs` between `a` and `b` with a pattern.
fn range_is(cs: &Vec<char>, a: usize, b: usize, pat: &Vec<char>) -> (r: bool)
    requires
        a <= b <= cs@.len(),
    ensures
        r == (cs@.subrange(a as int, b as int) == pat@),
{
    if b - a != pat.len() {
        assert(cs@.subrange(a as int, b as int).len() != pat@.len());
        return false;
    }
    let mut k: usize = 0;
    while k < pat.len()
        invariant
            a <= b <= cs@.len(),
            b - a == pat@.len(),
            0 <= k <= pat@.len(),
            forall|m: int| 0 <= m < k ==> cs@[a + m] == pat@[m],
        decreases pat@.len() - k,
    {
        if cs[a + k] != pat[k] {
            assert(cs@.subrange(a as int, b as int)[k as int] != pat@[k as int]);
            return false;
        }
        k = k + 1;
    }
    assert(cs@.subrange(a as int, b as int) =~= pat@);
    true
}

/// View of a vector of annotated moves.
pub open spec fn moves_view(ms: Seq<(String, bool)>) -> Seq<(Seq<char>, bool)> {
    ms.map_values(|m: (String, bool)| (m.0@, m.1))
}

pub open spec fn opt_str_view(o: Option<String>) -> Option<Seq<char>> {
    match o {
        Some(x) => Some(x@),
        None => None,
    }
}

/// A game is out of book once at least one played move was not taken from the
/// opening book.
pub open spec fn spec_out_of_book(moves: Seq<(Seq<char>, bool)>) -> bool {
    exists|i: int| 0 <= i < moves.len() && !moves[i].1
}

/// A parsed game: the two players, the date and event tokens as printed in
/// the source, and the played moves with their book flags in source order.
#[derive(Debug)]
pub struct Pgn {
    pub white_player: CcrlLivePlayer,
    pub black_player: CcrlLivePlayer,
    pub date: String,
    pub site: String,
    pub moves: Vec<(String, bool)>,
}

impl View for Pgn {
    type V = GameView;

    open spec fn view(&self) -> GameView {
        GameView {
            white: self.white_player@,
            black: self.black_player@,
            date: self.date@,
            site: self.site@,
            moves: moves_view(self.moves@),
        }
    }
}

impl Pgn {
    /// The game is out of book if any of the moves that were played are not
    /// book moves.
    pub fn out_of_book(&self) -> (r: bool)
        ensures
            r == spec_out_of_book(self@.moves),
    {
        let n = self.moves.len();
        let mut i: usize = 0;
        while i < n
            invariant
                0 <= i <= n == self.moves@.len(),
                forall|k: int| 0 <= k < i ==> moves_view(self.moves@)[k].1,
            decreases n - i,
        {
            if !self.moves[i].1 {
                assert(!moves_view(self.moves@)[i as int].1);
                return true;
            }
            i = i + 1;
        }
        false
    }

    /// Whether white is the engine called `player`, up to normalization.
    pub fn white_player_is(&self, player: &str) -> (r: bool)
        ensures
            r == (crate::live::spec_normalize(self@.white) == crate::live::spec_normalize(
                player@,
            )),
    {
        self.white_player.matches(player)
    }

    /// Whether black is the engine called `player`, up to normalization.
    pub fn black_player_is(&self, player: &str) -> (r: bool)
        ensures
            r == (crate::live::spec_normalize(self@.black) == crate::live::spec_normalize(
                player@,
            )),
    {
        self.black_player.matches(player)
    }
}

/// Accumulates headers and annotated moves while a document is read.
pub struct PgnInfoBuilder {
    pub white_player: Option<String>,
    pub black_player: Option<String>,
    pub date: Option<String>,
    pub site: Option<String>,
    pub moves: Vec<(String, bool)>,
    pub last_san: Option<String>,
}

impl View for PgnInfoBuilder {
    type V = BuilderView;

    open spec fn view(&self) -> BuilderView {
        BuilderView {
            white: opt_str_view(self.white_player),
            black: opt_str_view(self.black_player),
            date: opt_str_view(self.date),
            site: opt_str_view(self.site),
            moves: moves_view(self.moves@),
            pending: opt_str_view(self.last_san),
        }
    }
}

/// The book line of a game: the moves flagged as book moves, in order.
pub open spec fn book_line(moves: Seq<(Seq<char>, bool)>) -> Seq<Seq<char>>
    decreases moves.len(),
{
    if moves.len() == 0 {
        Seq::empty()
    } else {
        let rest = book_line(moves.drop_last());
        if moves.last().1 {
            rest.push(moves.last().0)
        } else {
            rest
        }
    }
}

/// Mathematical content of a game fingerprint: the players by display
/// identity, the date, and the book line. Moves played after the book is
/// exhausted are excluded, so the key is stable across re-fetches of a
/// running game. A genuine replay (same players, date and opening) is not
/// distinguished from the original game; that is a known limitation.
#[verifier::ext_equal]
pub ghost struct FpView {
    pub white: Seq<char>,
    pub black: Seq<char>,
    pub date: Seq<char>,
    pub book_moves: Seq<Seq<char>>,
}

pub open spec fn spec_fingerprint(g: GameView) -> FpView {
    FpView { white: g.white, black: g.black, date: g.date, book_moves: book_line(g.moves) }
}

pub open spec fn strs_view(ss: Seq<String>) -> Seq<Seq<char>> {
    ss.map_values(|x: String| x@)
}

/// The equivalence key that decides whether two observations are the same
/// logical game.
#[derive(Debug)]
pub struct GameFingerprint {
    pub white: String,
    pub black: String,
    pub date: String,
    pub book_moves: Vec<String>,
}

impl View for GameFingerprint {
    type V = FpView;

    open spec fn view(&self) -> FpView {
        FpView {
            white: self.white@,
            black: self.black@,
            date: self.date@,
            book_moves: strs_view(self.book_moves@),
        }
    }
}

fn strs_eq(a: &Vec<String>, b: &Vec<String>) -> (r: bool)
    ensures
        r == (strs_view(a@) == strs_view(b@)),
{
    if a.len() != b.len() {
        assert(strs_view(a@).len() != strs_view(b@).len());
        return false;
    }
    let n = a.len();
    let mut i: usize = 0;
    while i < n
        invariant
            0 <= i <= n,
            n == a@.len() == b@.len(),
            forall|k: int| 0 <= k < i ==> strs_view(a@)[k] == strs_view(b@)[k],
        decreases n - i,
    {
        if !(a[i] == b[i]) {
            assert(strs_view(a@)[i as int] != strs_view(b@)[i as int]);
            return false;
        }
        i = i + 1;
    }
    assert(strs_view(a@) =~= strs_view(b@));
    true
}

impl PartialEq for GameFingerprint {
    fn eq(&self, other: &Self) -> (r: bool) {
        let fields = self.white == other.white && self.black == other.black && self.date
            == other.date && strs_eq(&self.book_moves, &other.book_moves);
        proof {
            if fields {
                assert(self@ =~= other@);
            }
        }
        fields
    }
}

impl vstd::std_specs::cmp::PartialEqSpecImpl for GameFingerprint {
    open spec fn obeys_eq_spec() -> bool {
        true
    }

    open spec fn eq_spec(&self, other: &Self) -> bool {
        self@ == other@
    }
}

impl Clone for GameFingerprint {
    fn clone(&self) -> (r: Self)
        ensures
            r@ == self@,
    {
        let r = GameFingerprint {
            white: self.white.clone(),
            black: self.black.clone(),
            date: self.date.clone(),
            book_moves: clone_strings(&self.book_moves),
        };
        proof {
            assert(r@ =~= self@);
        }
        r
    }
}

fn clone_strings(v: &Vec<String>) -> (r: Vec<String>)
    ensures
        strs_view(r@) == strs_view(v@),
{
    let mut r: Vec<String> = Vec::new();
    let n = v.len();
    let mut i: usize = 0;
    while i < n
        invariant
            0 <= i <= n == v@.len(),
            r@.len() == i,
            forall|k: int| 0 <= k < i ==> r@[k]@ == v@[k]@,
        decreases n - i,
    {
        r.push(v[i].clone());
        i = i + 1;
    }
    assert(strs_view(r@) =~= strs_view(v@));
    r
}

impl Pgn {
    /// The fingerprint of this game: players, date and book line.
    pub fn fingerprint(&self) -> (r: GameFingerprint)
        ensures
            r@ == spec_fingerprint(self@),
    {
        let ghost mv = moves_view(self.moves@);
        let mut book: Vec<String> = Vec::new();
        let n = self.moves.len();
        let mut i: usize = 0;
        while i < n
            invariant
                0 <= i <= n,
                n == self.moves@.len(),
                mv == moves_view(self.moves@),
                mv.len() == n,
                strs_view(book@) == book_line(mv.take(i as int)),
            decreases n - i,
        {
            let ghost pre = strs_view(book@);
            if self.moves[i].1 {
                let san = self.moves[i].0.clone();
                book.push(san);
            }
            proof {
                assert(mv.take(i + 1).drop_last() =~= mv.take(i as int));
                assert(mv.take(i + 1).last() == mv[i as int]);
                if mv[i as int].1 {
                    assert(strs_view(book@) =~= pre.push(mv[i as int].0));
                    assert(book_line(mv.take(i + 1)) == book_line(mv.take(i as int)).push(
                        mv[i as int].0,
                    ));
                }
            }
            i = i + 1;
        }
        assert(mv.take(n as int) =~= mv);
        let r = GameFingerprint {
            white: self.white_player.name().to_owned(),
            black: self.black_player.name().to_owned(),
            date: self.date.clone(),
            book_moves: book,
        };
        proof {
            assert(r@ =~= spec_fingerprint(self@));
        }
        r
    }
}

/// Two games fingerprint alike exactly when they have the same players, the
/// same date and the same book line; what happens after the book is over does
/// not enter the key, and any difference in the book line changes it.
pub proof fn lemma_fingerprint_characterization(g1: GameView, g2: GameView)
    ensures
        (spec_fingerprint(g1) == spec_fingerprint(g2)) <==> (g1.white == g2.white && g1.black
            == g2.black && g1.date == g2.date && book_line(g1.moves) == book_line(g2.moves)),
{
    if g1.white == g2.white && g1.black == g2.black && g1.date == g2.date && book_line(g1.moves)
        == book_line(g2.moves) {
        assert(spec_fingerprint(g1) =~= spec_fingerprint(g2));
    }
}

/// Extending a move list with moves that are not book moves leaves the book
/// line unchanged: a later fetch of the same game, grown only by post-book
/// moves, fingerprints identically.
pub proof fn lemma_book_line_extension(ms: Seq<(Seq<char>, bool)>, ext: Seq<(Seq<char>, bool)>)
    requires
        forall|k: int| 0 <= k < ext.len() ==> !(#[trigger] ext[k]).1,
    ensures
        book_line(ms + ext) == book_line(ms),
    decreases ext.len(),
{
    if ext.len() == 0 {
        assert(ms + ext =~= ms);
    } else {
        assert((ms + ext).drop_last() =~= ms + ext.drop_last());
        assert((ms + ext).last() == ext.last());
        lemma_book_line_extension(ms, ext.drop_last());
    }
}

/// Parses one game-notation document into a `Pgn`, or says why it is
/// malformed; the result is exactly what `spec_parse` yields on the text.
pub fn get_pgn_info(pgn: &str) -> (r: Result<Pgn, ParseError>)
    ensures
        match r {
            Ok(g) => spec_parse(pgn@) == Ok::<GameView, ParseError>(g@),
            Err(e) => spec_parse(pgn@) == Err::<GameView, ParseError>(e),
        },
{
    broadcast use vstd::string::group_string_axioms;

    let cs = str_to_chars(pgn);
    let n = cs.len();
    let mut st = PgnInfoBuilder::new();
    let mut i: usize = 0;
    loop
        invariant
            0 <= i <= n,
            n == cs@.len(),
            cs@ == pgn@,
            spec_parse(pgn@) == parse_from(pgn@, i as int, st@),
        ensures
            spec_parse(pgn@) == finish(st@),
        decreases n - i,
    {
        if i >= n {
            break ;
        }
        let ghost s = pgn@;
        let ghost stv = st@;
        let c = cs[i];
        if crate::text::is_ws_exec(c) {
            assert(parse_from(s, i as int, stv) == parse_from(s, i + 1, stv));
            i = i + 1;
        } else if c == '{' {
            match scan_to_exec(&cs, i + 1, '}') {
                None => {
                    return Err(ParseError::UnclosedComment);
                },
                Some(j) => {
                    match &st.last_san {
                        None => {
                            return Err(ParseError::CommentWithoutMove);
                        },
                        Some(sref) => {
                            let san = sref.clone();
                            let is_book = j - i == 7 && cs[i + 1] == '(' && cs[i + 2] == 'B' && cs[i
                                + 3] == 'o' && cs[i + 4] == 'o' && cs[i + 5] == 'k' && cs[i + 6]
                                == ')';
                            proof {
                                let content = s.subrange(i + 1, j as int);
                                if content == book_sentinel() {
                                    assert(content.len() == 6);
                                    assert(s[i + 1] == content[0]);
                                    assert(s[i + 2] == content[1]);
                                    assert(s[i + 3] == content[2]);
                                    assert(s[i + 4] == content[3]);
                                    assert(s[i + 5] == content[4]);
                                    assert(s[i + 6] == content[5]);
                                }
                                if is_book {
                                    assert(content =~= book_sentinel());
                                }
                                assert(is_book == (content == book_sentinel()));
                            }
                            st.moves.push((san, is_book));
                            st.last_san = None;
                            proof {
                                assert(st@ =~= BuilderView {
                                    moves: stv.moves.push((stv.pending->Some_0, is_book)),
                                    pending: None,
                                    ..stv
                                });
                            }
                            i = j + 1;
                        },
                    }
                },
            }
        } else if c == '(' {
            match skip_variation_exec(&cs, i + 1) {
                None => {
                    return Err(ParseError::UnclosedVariation);
                },
                Some(j) => {
                    i = j;
                },
            }
        } else if c == '[' {
            if st.moves.len() > 0 || st.last_san.is_some() {
                break ;
            }
            let key_end = token_end_exec(&cs, i + 1);
            let q1 = skip_ws_exec(&cs, key_end);
            if !(q1 < n && cs[q1] == '"') {
                return Err(ParseError::MalformedHeader);
            }
            match scan_to_exec(&cs, q1 + 1, '"') {
                None => {
                    return Err(ParseError::MalformedHeader);
                },
                Some(ve) => {
                    let q2 = skip_ws_exec(&cs, ve + 1);
                    if !(q2 < n && cs[q2] == ']') {
                        return Err(ParseError::MalformedHeader);
                    }
                    let ghost key = s.subrange(i + 1, key_end as int);
                    let value = pgn.substring_char(q1 + 1, ve).to_owned();
                    assert(parse_header_at(s, i as int) == Some((key, value@, q2 + 1 as int)));
                    let pat_white = vec!['W', 'h', 'i', 't', 'e'];
                    let pat_black = vec!['B', 'l', 'a', 'c', 'k'];
                    let pat_date = vec!['D', 'a', 't', 'e'];
                    let pat_site = vec!['S', 'i', 't', 'e'];
                    proof {
                        assert(pat_white@ =~= white_key());
                        assert(pat_black@ =~= black_key());
                        assert(pat_date@ =~= date_key());
                        assert(pat_site@ =~= site_key());
                    }
                    if range_is(&cs, i + 1, key_end, &pat_white) {
                        st.white_player = Some(value);
                    } else if range_is(&cs, i + 1, key_end, &pat_black) {
                        st.black_player = Some(value);
                    } else if range_is(&cs, i + 1, key_end, &pat_date) {
                        st.date = Some(value);
                    } else if range_is(&cs, i + 1, key_end, &pat_site) {
                        st.site = Some(value);
                    }
                    assert(st@ =~= header_update(stv, key, value@));
                    i = q2 + 1;
                },
            }
        } else if c == '}' || c == ')' {
            return Err(ParseError::UnexpectedChar);
        } else {
            let j = token_end_exec(&cs, i);
            proof {
                lemma_token_end_bounds(s, i + 1);
                assert(token_end(s, i as int) == token_end(s, i + 1));
            }
            let ghost tok = s.subrange(i as int, j as int);
            let tlen = j - i;
            let res_white = tlen == 3 && cs[i] == '1' && cs[i + 1] == '-' && cs[i + 2] == '0';
            let res_black = tlen == 3 && cs[i] == '0' && cs[i + 1] == '-' && cs[i + 2] == '1';
            let res_draw = tlen == 7 && cs[i] == '1' && cs[i + 1] == '/' && cs[i + 2] == '2' && cs[i
                + 3] == '-' && cs[i + 4] == '1' && cs[i + 5] == '/' && cs[i + 6] == '2';
            let res_open = tlen == 1 && cs[i] == '*';
            let is_res = res_white || res_black || res_draw || res_open;
            proof {
                if res_white {
                    assert(tok =~= seq!['1', '-', '0']);
                }
                if res_black {
                    assert(tok =~= seq!['0', '-', '1']);
                }
                if res_draw {
                    assert(tok =~= seq!['1', '/', '2', '-', '1', '/', '2']);
                }
                if res_open {
                    assert(tok =~= seq!['*']);
                }
                assert(tok.len() == j - i);
                assert forall|k: int| 0 <= k < j - i implies tok[k] == s[i + k] by {}
                let r1: Seq<char> = seq!['1', '-', '0'];
                let r2: Seq<char> = seq!['0', '-', '1'];
                let r3: Seq<char> = seq!['1', '/', '2', '-', '1', '/', '2'];
                let r4: Seq<char> = seq!['*'];
                assert(r1.len() == 3 && r1[0] == '1' && r1[1] == '-' && r1[2] == '0');
                assert(r2.len() == 3 && r2[0] == '0' && r2[1] == '-' && r2[2] == '1');
                assert(r3.len() == 7 && r3[0] == '1' && r3[1] == '/' && r3[2] == '2' && r3[3] == '-'
                    && r3[4] == '1' && r3[5] == '/' && r3[6] == '2');
                assert(r4.len() == 1 && r4[0] == '*');
                if tok == r1 {
                    assert(res_white);
                }
                if tok == r2 {
                    assert(res_black);
                }
                if tok == r3 {
                    assert(res_draw);
                }
                if tok == r4 {
                    assert(res_open);
                }
                assert(is_res == is_result_token(tok));
            }
            if is_res {
                break ;
            }
            assert(tok[0] == s[i as int]);
            if cs[i] == '$' || crate::live::is_digit_exec(cs[i]) {
                i = j;
            } else {
                if st.last_san.is_some() {
                    return Err(ParseError::ConsecutiveMoves);
                }
                let san = pgn.substring_char(i, j).to_owned();
                st.last_san = Some(san);
                proof {
                    assert(st@ =~= BuilderView { pending: Some(tok), ..stv });
                }
                i = j;
            }
        }
    }
    let white = match &st.white_player {
        None => {
            return Err(ParseError::MissingWhite);
        },
        Some(w) => w.clone(),
    };
    let black = match &st.black_player {
        None => {
            return Err(ParseError::MissingBlack);
        },
        Some(b) => b.clone(),
    };
    let date = match &st.date {
        None => {
            return Err(ParseError::MissingDate);
        },
        Some(d) => d.clone(),
    };
    let site = match &st.site {
        None => String::new(),
        Some(t) => t.clone(),
    };
    if st.moves.len() == 0 {
        return Err(ParseError::EmptyMoveList);
    }
    let g = Pgn {
        white_player: CcrlLivePlayer::new(white.as_str()),
        black_player: CcrlLivePlayer::new(black.as_str()),
        date,
        site,
        moves: st.moves,
    };
    proof {
        assert(g@ =~= finish(st@)->Ok_0);
    }
    Ok(g)
}

impl PgnInfoBuilder {
    pub fn new() -> (r: PgnInfoBuilder)
        ensures
            r@ == init_builder(),
    {
        let r = PgnInfoBuilder {
            white_player: None,
            black_player: None,
            date: None,
            site: None,
            moves: Vec::new(),
            last_san: None,
        };
        assert(r@ =~= init_builder());
        r
    }
}

} // verus!
