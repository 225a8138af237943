//! The decision taken for each freshly fetched game: one that is out of book
//! and not yet seen is fingerprinted, matched against the configured engines,
//! filtered through each subscribed user's tournament rules, and turned into
//! at most one notification; its fingerprint is marked seen either way.
use crate::config::{spec_should_notify, NotifyConfig, UserView};
use crate::live::{spec_normalize, CcrlLivePlayer, CcrlLiveRoom};
use crate::pgn::{spec_fingerprint, spec_out_of_book, strs_view, GameView, Pgn};
use crate::state::SeenGames;
use vstd::prelude::*;

verus! {

/// The side an engine plays.
#[derive(Debug, Clone, Copy, PartialEq, Eq, Structural)]
pub enum Color {
    White,
    Black,
}

pub open spec fn spec_other(c: Color) -> Color {
    match c {
        Color::White => Color::Black,
        Color::Black => Color::White,
    }
}

impl Color {
    /// The opposite side.
    pub fn other(&self) -> (r: Color)
        ensures
            r == spec_other(*self),
    {
        match self {
            Color::White => Color::Black,
            Color::Black => Color::White,
        }
    }
}

/// One outbound notification: the two players, the tournament, the room the
/// game runs in, and the deduplicated recipients.
#[derive(Debug)]
pub struct NotifyContent {
    pub white_player: CcrlLivePlayer,
    pub black_player: CcrlLivePlayer,
    pub tournament: String,
    pub room: CcrlLiveRoom,
    pub mentions: Vec<String>,
}

/// One of the game's players is the engine this entry configures, up to
/// normalization.
pub open spec fn player_matches(engine: Seq<char>, g: GameView) -> bool {
    spec_normalize(g.white) == spec_normalize(engine) || spec_normalize(g.black) == spec_normalize(
        engine,
    )
}

/// `user` is owed a notification for game `g` under the first `k` entries of
/// the configuration: some matching engine entry subscribes the user with
/// rules that allow the game's tournament.
pub open spec fn user_notified_upto(
    cfg: Seq<(Seq<char>, Seq<UserView>)>,
    g: GameView,
    user: Seq<char>,
    k: int,
) -> bool {
    exists|a: int, b: int|
        0 <= a < k <= cfg.len() && 0 <= b < cfg[a].1.len() && player_matches(cfg[a].0, g)
            && cfg[a].1[b].user_id == user && spec_should_notify(cfg[a].1[b].rules, g.site)
}

/// `user` is owed a notification for game `g` under the whole configuration.
pub open spec fn user_notified(
    cfg: Seq<(Seq<char>, Seq<UserView>)>,
    g: GameView,
    user: Seq<char>,
) -> bool {
    user_notified_upto(cfg, g, user, cfg.len() as int)
}

/// Within entry `e`, one of the first `b` users is `user` with rules that
/// allow the tournament.
pub open spec fn entry_hit(e: (Seq<char>, Seq<UserView>), g: GameView, user: Seq<char>, b: int) -> bool {
    exists|j: int|
        0 <= j < b <= e.1.len() && e.1[j].user_id == user && spec_should_notify(
            e.1[j].rules,
            g.site,
        )
}

pub open spec fn no_dup_strs(ss: Seq<Seq<char>>) -> bool {
    forall|x: int, y: int| 0 <= x < y < ss.len() ==> ss[x] != ss[y]
}

fn contains_string(v: &Vec<String>, s: &String) -> (r: bool)
    ensures
        r == strs_view(v@).contains(s@),
{
    let n = v.len();
    let mut i: usize = 0;
    while i < n
        invariant
            0 <= i <= n == v@.len(),
            forall|k: int| 0 <= k < i ==> strs_view(v@)[k] != s@,
        decreases n - i,
    {
        if v[i] == *s {
            assert(strs_view(v@)[i as int] == s@);
            return true;
        }
        i = i + 1;
    }
    assert forall|k: int| 0 <= k < strs_view(v@).len() implies strs_view(v@)[k] != s@ by {}
    false
}

/// The deduplicated set of users owed a notification for `game` under `cfg`.
pub fn recipients(cfg: &NotifyConfig, game: &Pgn) -> (r: Vec<String>)
    ensures
        forall|u: Seq<char>| #[trigger]
            strs_view(r@).contains(u) <==> user_notified(cfg@, game@, u),
        no_dup_strs(strs_view(r@)),
{
    let mut out: Vec<String> = Vec::new();
    let nk = cfg.engines.len();
    let mut k: usize = 0;
    while k < nk
        invariant
            0 <= k <= nk == cfg.engines@.len(),
            cfg@.len() == nk,
            forall|u: Seq<char>| #[trigger]
                strs_view(out@).contains(u) <==> user_notified_upto(cfg@, game@, u, k as int),
            no_dup_strs(strs_view(out@)),
        decreases nk - k,
    {
        let engine_matched = game.white_player_is(cfg.engines[k].0.as_str())
            || game.black_player_is(cfg.engines[k].0.as_str());
        assert(engine_matched == player_matches(cfg@[k as int].0, game@));
        if engine_matched {
            let nu = cfg.engines[k].1.len();
            let mut j: usize = 0;
            while j < nu
                invariant
                    0 <= j <= nu,
                    0 <= k < nk == cfg.engines@.len(),
                    cfg@.len() == nk,
                    nu == cfg.engines@[k as int].1@.len(),
                    nu == cfg@[k as int].1.len(),
                    player_matches(cfg@[k as int].0, game@),
                    forall|u: Seq<char>| #[trigger]
                        strs_view(out@).contains(u) <==> (user_notified_upto(
                            cfg@,
                            game@,
                            u,
                            k as int,
                        ) || entry_hit(cfg@[k as int], game@, u, j as int)),
                    no_dup_strs(strs_view(out@)),
                decreases nu - j,
            {
                let uc = &cfg.engines[k].1[j];
                assert(uc@ == cfg@[k as int].1[j as int]);
                let allowed = uc.rules.notify_for_tournament(game.site.as_str());
                if allowed {
                    if !contains_string(&out, &uc.user_id) {
                        let ghost svo = strs_view(out@);
                        out.push(uc.user_id.clone());
                        proof {
                            let svn = strs_view(out@);
                            assert(svn =~= svo.push(uc.user_id@));
                            assert(svn[svn.len() - 1] == uc.user_id@);
                            assert(svn.contains(uc.user_id@));
                            assert forall|u: Seq<char>| #[trigger]
                                svn.contains(u) implies (svo.contains(u) || u == uc.user_id@) by {
                                let idx = choose|idx: int|
                                    0 <= idx < svn.len() && svn[idx] == u;
                                if idx < svo.len() {
                                    assert(svo[idx] == u);
                                }
                            }
                            assert forall|u: Seq<char>| svo.contains(u) implies #[trigger]
                                svn.contains(u) by {
                                let idx = choose|idx: int|
                                    0 <= idx < svo.len() && svo[idx] == u;
                                assert(svn[idx] == u);
                            }
                        }
                    }
                    proof {
                        assert(entry_hit(cfg@[k as int], game@, uc.user_id@, j + 1));
                    }
                }
                proof {
                    assert forall|u: Seq<char>|
                        entry_hit(cfg@[k as int], game@, u, j + 1) && !entry_hit(
                            cfg@[k as int],
                            game@,
                            u,
                            j as int,
                        ) implies u == cfg@[k as int].1[j as int].user_id && spec_should_notify(
                        cfg@[k as int].1[j as int].rules,
                        game@.site,
                    ) by {
                        let jj = choose|jj: int|
                            0 <= jj < j + 1 && cfg@[k as int].1.len() >= j + 1 && cfg@[k as int].1[jj].user_id
                                == u && spec_should_notify(cfg@[k as int].1[jj].rules, game@.site);
                        assert(jj == j);
                    }
                }
                j = j + 1;
            }
            proof {
                assert forall|u: Seq<char>|
                    (user_notified_upto(cfg@, game@, u, k as int) || entry_hit(
                        cfg@[k as int],
                        game@,
                        u,
                        nu as int,
                    )) implies #[trigger] user_notified_upto(cfg@, game@, u, k + 1) by {
                    if entry_hit(cfg@[k as int], game@, u, nu as int) {
                        let j2 = choose|j2: int|
                            0 <= j2 < nu && cfg@[k as int].1.len() >= nu && cfg@[k as int].1[j2].user_id
                                == u && spec_should_notify(cfg@[k as int].1[j2].rules, game@.site);
                        assert(0 <= k < k + 1 <= cfg@.len() && 0 <= j2 < cfg@[k as int].1.len()
                            && player_matches(cfg@[k as int].0, game@) && cfg@[k as int].1[j2].user_id
                            == u && spec_should_notify(cfg@[k as int].1[j2].rules, game@.site));
                    }
                }
                assert forall|u: Seq<char>| #[trigger]
                    user_notified_upto(cfg@, game@, u, k + 1) implies (user_notified_upto(
                        cfg@,
                        game@,
                        u,
                        k as int,
                    ) || entry_hit(cfg@[k as int], game@, u, nu as int)) by {
                    let (a, b) = choose|a: int, b: int|
                        0 <= a < k + 1 <= cfg@.len() && 0 <= b < cfg@[a].1.len() && player_matches(
                            cfg@[a].0,
                            game@,
                        ) && cfg@[a].1[b].user_id == u && spec_should_notify(
                            cfg@[a].1[b].rules,
                            game@.site,
                        );
                    if a == k {
                        assert(entry_hit(cfg@[k as int], game@, u, nu as int));
                    }
                }
            }
        } else {
            proof {
                assert forall|u: Seq<char>| #[trigger]
                    user_notified_upto(cfg@, game@, u, k + 1) implies user_notified_upto(
                    cfg@,
                    game@,
                    u,
                    k as int,
                ) by {
                    let (a, b) = choose|a: int, b: int|
                        0 <= a < k + 1 <= cfg@.len() && 0 <= b < cfg@[a].1.len() && player_matches(
                            cfg@[a].0,
                            game@,
                        ) && cfg@[a].1[b].user_id == u && spec_should_notify(
                            cfg@[a].1[b].rules,
                            game@.site,
                        );
                    assert(a != k);
                }
            }
        }
        k = k + 1;
    }
    out
}

/// One fetch-cycle decision for one game: a game still in book is invisible;
/// a seen fingerprint is ignored; a new out-of-book game is marked seen and
/// yields a notification exactly when some user is owed one.
pub fn process_game(
    seen: &mut SeenGames,
    cfg: &NotifyConfig,
    room: &CcrlLiveRoom,
    game: &Pgn,
) -> (r: Option<NotifyContent>)
    ensures
        !spec_out_of_book(game@.moves) ==> r is None && final(seen)@ == old(seen)@,
        spec_out_of_book(game@.moves) && old(seen)@.contains(spec_fingerprint(game@)) ==> r is None
            && final(seen)@ == old(seen)@,
        spec_out_of_book(game@.moves) && !old(seen)@.contains(spec_fingerprint(game@)) ==> {
            &&& final(seen)@ == old(seen)@.insert(spec_fingerprint(game@))
            &&& (r is Some <==> exists|u: Seq<char>| user_notified(cfg@, game@, u))
            &&& match r {
                Some(c) => {
                    &&& c.white_player@ == game@.white
                    &&& c.black_player@ == game@.black
                    &&& c.tournament@ == game@.site
                    &&& c.room@ == room@
                    &&& (forall|u: Seq<char>| #[trigger]
                        strs_view(c.mentions@).contains(u) <==> user_notified(cfg@, game@, u))
                    &&& no_dup_strs(strs_view(c.mentions@))
                },
                None => true,
            }
        },
{
    if !game.out_of_book() {
        return None;
    }
    let fp = game.fingerprint();
    if seen.contains(&fp) {
        return None;
    }
    seen.add(&fp);
    let users = recipients(cfg, game);
    if users.len() == 0 {
        proof {
            if exists|u: Seq<char>| user_notified(cfg@, game@, u) {
                let u = choose|u: Seq<char>| user_notified(cfg@, game@, u);
                assert(strs_view(users@).contains(u));
            }
        }
        return None;
    }
    assert(strs_view(users@).contains(strs_view(users@)[0]));
    Some(
        NotifyContent {
            white_player: game.white_player.clone(),
            black_player: game.black_player.clone(),
            tournament: game.site.clone(),
            room: room.clone(),
            mentions: users,
        },
    )
}

} // verus!
