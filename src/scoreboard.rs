use vstd::prelude::*;

use crate::Team;

verus! {

/// Thresholds of the match: points to win a cama, camas to win a coto, cotos
/// to win the game.
#[derive(Debug, Clone, Copy, PartialEq, Eq, Structural)]
pub struct GameConfig {
    pub game_win_score: u8,
    pub coto_win_score: u8,
    pub cama_win_score: u8,
}

impl Default for GameConfig {
    /// Two cotos, of two camas, of forty points.
    fn default() -> (c: GameConfig)
        ensures
            c.game_win_score == 2,
            c.coto_win_score == 2,
            c.cama_win_score == 40,
    {
        GameConfig { game_win_score: 2, coto_win_score: 2, cama_win_score: 40 }
    }
}

/// The points that one game of a round gives to its winning team.
#[derive(Debug, Clone, Copy, PartialEq, Eq, Structural)]
pub struct RoundScoreSection(pub Team, pub u8);

/// Points for each team.
#[derive(Debug, Clone, Copy, PartialEq, Eq, Structural)]
pub struct ScoreDelta {
    pub team1: u8,
    pub team2: u8,
}

/// The outcome of a round: one section for each game that was scored.
#[derive(Debug, Clone, Copy, PartialEq, Eq)]
pub struct RoundScore {
    pub rey: Option<RoundScoreSection>,
    pub flor: Option<RoundScoreSection>,
    pub secansa: Option<RoundScoreSection>,
    pub ali: Option<RoundScoreSection>,
    pub truc: RoundScoreSection,
}

/// Running points of the two teams in a cama.
#[derive(Debug, Clone, Copy, PartialEq, Eq, Structural)]
pub struct CamaScore {
    pub team1: u8,
    pub team2: u8,
}

pub open spec fn section_delta(s: RoundScoreSection) -> ScoreDelta {
    match s.0 {
        Team::Team1 => ScoreDelta { team1: s.1, team2: 0 },
        Team::Team2 => ScoreDelta { team1: 0, team2: s.1 },
    }
}

pub open spec fn optional_deltas(o: Option<RoundScoreSection>) -> Seq<ScoreDelta> {
    match o {
        Some(s) => seq![section_delta(s)],
        None => Seq::empty(),
    }
}

/// The points of a round, game by game: rey, flor, secansa, ali, then truc.
pub open spec fn round_deltas(r: RoundScore) -> Seq<ScoreDelta> {
    optional_deltas(r.rey) + optional_deltas(r.flor) + optional_deltas(r.secansa)
        + optional_deltas(r.ali) + seq![section_delta(r.truc)]
}

/// The points of a cama, round by round, game by game.
pub open spec fn cama_deltas(rounds: Seq<RoundScore>) -> Seq<ScoreDelta>
    decreases rounds.len(),
{
    if rounds.len() == 0 {
        Seq::empty()
    } else {
        cama_deltas(rounds.drop_last()) + round_deltas(rounds.last())
    }
}

pub open spec fn sum_team1(ds: Seq<ScoreDelta>) -> nat
    decreases ds.len(),
{
    if ds.len() == 0 {
        0
    } else {
        sum_team1(ds.drop_last()) + ds.last().team1 as nat
    }
}

pub open spec fn sum_team2(ds: Seq<ScoreDelta>) -> nat
    decreases ds.len(),
{
    if ds.len() == 0 {
        0
    } else {
        sum_team2(ds.drop_last()) + ds.last().team2 as nat
    }
}

/// The first team whose running total reaches `th`, looking at the totals
/// after the `i`-th delta and later ones.
pub open spec fn reach_from(ds: Seq<ScoreDelta>, th: nat, i: int) -> Option<Team>
    decreases ds.len() - i,
{
    if i < 0 || i >= ds.len() {
        None
    } else if sum_team1(ds.take(i + 1)) >= th {
        Some(Team::Team1)
    } else if sum_team2(ds.take(i + 1)) >= th {
        Some(Team::Team2)
    } else {
        reach_from(ds, th, i + 1)
    }
}

/// The winner of a cama: the first team to reach `th` points.
pub open spec fn cama_winner(rounds: Seq<RoundScore>, th: nat) -> Option<Team> {
    reach_from(cama_deltas(rounds), th, 0)
}

pub open spec fn count_wins(ws: Seq<Option<Team>>, t: Team) -> nat
    decreases ws.len(),
{
    if ws.len() == 0 {
        0
    } else {
        count_wins(ws.drop_last(), t) + if ws.last() == Some(t) {
            1nat
        } else {
            0nat
        }
    }
}

/// The first team to have won `th` of the units, looking at the counts
/// after the `i`-th unit and later ones.
pub open spec fn majority_from(ws: Seq<Option<Team>>, th: nat, i: int) -> Option<Team>
    decreases ws.len() - i,
{
    if i < 0 || i >= ws.len() {
        None
    } else if count_wins(ws.take(i + 1), Team::Team1) >= th {
        Some(Team::Team1)
    } else if count_wins(ws.take(i + 1), Team::Team2) >= th {
        Some(Team::Team2)
    } else {
        majority_from(ws, th, i + 1)
    }
}

/// The winner of each cama.
pub open spec fn cama_winners(camas: Seq<Seq<RoundScore>>, cfg: GameConfig) -> Seq<Option<Team>> {
    camas.map_values(|c: Seq<RoundScore>| cama_winner(c, cfg.cama_win_score as nat))
}

/// The winner of a coto: the first team to win `coto_win_score` camas.
pub open spec fn coto_winner(camas: Seq<Seq<RoundScore>>, cfg: GameConfig) -> Option<Team> {
    majority_from(cama_winners(camas, cfg), cfg.coto_win_score as nat, 0)
}

/// The winner of each coto.
pub open spec fn coto_winners(cotos: Seq<Seq<Seq<RoundScore>>>, cfg: GameConfig) -> Seq<
    Option<Team>,
> {
    cotos.map_values(|c: Seq<Seq<RoundScore>>| coto_winner(c, cfg))
}

/// The winner of the game: the first team to win `game_win_score` cotos.
pub open spec fn game_winner(cotos: Seq<Seq<Seq<RoundScore>>>, cfg: GameConfig) -> Option<
    Team,
> {
    majority_from(coto_winners(cotos, cfg), cfg.game_win_score as nat, 0)
}

/// A coto after a round is written into its current cama: a cama that now
/// has a winner is sealed and followed by a fresh one.
pub open spec fn coto_after(coto: Seq<Seq<RoundScore>>, round: RoundScore, cfg: GameConfig) -> Seq<
    Seq<RoundScore>,
> {
    let cama = coto.last().push(round);
    let updated = coto.update(coto.len() - 1, cama);
    if cama_winner(cama, cfg.cama_win_score as nat) is Some {
        updated.push(Seq::empty())
    } else {
        updated
    }
}

/// A scoreboard after a round is annotated: the current coto takes the round,
/// and a coto that now has a winner is sealed and followed by a fresh one.
pub open spec fn board_after(
    board: Seq<Seq<Seq<RoundScore>>>,
    round: RoundScore,
    cfg: GameConfig,
) -> Seq<Seq<Seq<RoundScore>>> {
    let coto = coto_after(board.last(), round, cfg);
    let updated = board.update(board.len() - 1, coto);
    if coto_winner(coto, cfg) is Some {
        updated.push(seq![Seq::empty()])
    } else {
        updated
    }
}

proof fn lemma_sums_prefix(ds: Seq<ScoreDelta>, i: int)
    requires
        0 <= i <= ds.len(),
    ensures
        sum_team1(ds.take(i)) <= sum_team1(ds),
        sum_team2(ds.take(i)) <= sum_team2(ds),
    decreases ds.len() - i,
{
    if i < ds.len() {
        lemma_sums_prefix(ds, i + 1);
        assert(ds.take(i + 1).drop_last() =~= ds.take(i));
    } else {
        assert(ds.take(i) =~= ds);
    }
}

impl RoundScoreSection {
    pub fn to_score_delta(&self) -> (r: ScoreDelta)
        ensures
            r == section_delta(*self),
    {
        match self.0 {
            Team::Team1 => ScoreDelta { team1: self.1, team2: 0 },
            Team::Team2 => ScoreDelta { team1: 0, team2: self.1 },
        }
    }
}

impl RoundScore {
    /// The points of the round, game by game: rey, flor, secansa, ali, truc.
    pub fn to_score_deltas(&self) -> (r: Vec<ScoreDelta>)
        ensures
            r@ == round_deltas(*self),
    {
        let mut r: Vec<ScoreDelta> = Vec::new();
        if let Some(s) = self.rey {
            r.push(s.to_score_delta());
        }
        assert(r@ =~= optional_deltas(self.rey));
        let ghost a = r@;
        if let Some(s) = self.flor {
            r.push(s.to_score_delta());
        }
        assert(r@ =~= a + optional_deltas(self.flor));
        let ghost b = r@;
        if let Some(s) = self.secansa {
            r.push(s.to_score_delta());
        }
        assert(r@ =~= b + optional_deltas(self.secansa));
        let ghost c = r@;
        if let Some(s) = self.ali {
            r.push(s.to_score_delta());
        }
        assert(r@ =~= c + optional_deltas(self.ali));
        let ghost d = r@;
        r.push(self.truc.to_score_delta());
        assert(r@ =~= d + seq![section_delta(self.truc)]);
        r
    }
}

impl CamaScore {
    /// The points after adding a delta to each team.
    pub fn add(self, rhs: ScoreDelta) -> (r: CamaScore)
        requires
            self.team1 + rhs.team1 <= u8::MAX,
            self.team2 + rhs.team2 <= u8::MAX,
        ensures
            r.team1 == self.team1 + rhs.team1,
            r.team2 == self.team2 + rhs.team2,
    {
        CamaScore { team1: self.team1 + rhs.team1, team2: self.team2 + rhs.team2 }
    }

    /// The higher of the two teams' points.
    pub fn max(&self) -> (r: u8)
        ensures
            r == if self.team1 >= self.team2 {
                self.team1
            } else {
                self.team2
            },
    {
        if self.team1 >= self.team2 {
            self.team1
        } else {
            self.team2
        }
    }
}

/// The rounds played in one cama.
#[derive(Debug, Clone, PartialEq, Eq)]
pub struct Cama {
    pub rounds: Vec<RoundScore>,
}

impl View for Cama {
    type V = Seq<RoundScore>;

    open spec fn view(&self) -> Seq<RoundScore> {
        self.rounds@
    }
}

impl Default for Cama {
    fn default() -> (c: Cama)
        ensures
            c@ == Seq::<RoundScore>::empty(),
    {
        Cama { rounds: Vec::new() }
    }
}

impl Cama {
    fn deltas(&self) -> (r: Vec<ScoreDelta>)
        ensures
            r@ == cama_deltas(self@),
    {
        let mut r: Vec<ScoreDelta> = Vec::new();
        let mut i: usize = 0;
        while i < self.rounds.len()
            invariant
                i <= self@.len(),
                r@ == cama_deltas(self@.take(i as int)),
            decreases self@.len() - i,
        {
            assert(self@.take(i as int + 1).drop_last() =~= self@.take(i as int));
            let mut d = self.rounds[i].to_score_deltas();
            r.append(&mut d);
            i = i + 1;
        }
        assert(self@.take(self@.len() as int) =~= self@);
        r
    }

    /// The points of each team over the whole cama.
    pub fn score(&self) -> (r: CamaScore)
        requires
            sum_team1(cama_deltas(self@)) <= u8::MAX,
            sum_team2(cama_deltas(self@)) <= u8::MAX,
        ensures
            r.team1 == sum_team1(cama_deltas(self@)),
            r.team2 == sum_team2(cama_deltas(self@)),
    {
        let ds = self.deltas();
        let mut acc = CamaScore { team1: 0, team2: 0 };
        let mut i: usize = 0;
        while i < ds.len()
            invariant
                i <= ds@.len(),
                ds@ == cama_deltas(self@),
                sum_team1(ds@) <= u8::MAX,
                sum_team2(ds@) <= u8::MAX,
                acc.team1 == sum_team1(ds@.take(i as int)),
                acc.team2 == sum_team2(ds@.take(i as int)),
            decreases ds@.len() - i,
        {
            assert(ds@.take(i as int + 1).drop_last() =~= ds@.take(i as int));
            proof {
                lemma_sums_prefix(ds@, i as int + 1);
            }
            acc = acc.add(ds[i]);
            i = i + 1;
        }
        assert(ds@.take(ds@.len() as int) =~= ds@);
        acc
    }

    /// Writes a round into the cama.
    pub fn annotate(&mut self, score: RoundScore)
        ensures
            final(self)@ == old(self)@.push(score),
    {
        self.rounds.push(score);
    }

    /// The first team to reach the cama's winning score, if any.
    pub fn winner(&self, game_config: GameConfig) -> (r: Option<Team>)
        ensures
            r == cama_winner(self@, game_config.cama_win_score as nat),
    {
        let th = game_config.cama_win_score as u32;
        let ds = self.deltas();
        let mut t1: u32 = 0;
        let mut t2: u32 = 0;
        let mut i: usize = 0;
        while i < ds.len()
            invariant
                i <= ds@.len(),
                ds@ == cama_deltas(self@),
                th == game_config.cama_win_score,
                t1 == sum_team1(ds@.take(i as int)),
                t2 == sum_team2(ds@.take(i as int)),
                t1 < 256 && t2 < 256 || i == 0,
                reach_from(ds@, th as nat, 0) == reach_from(ds@, th as nat, i as int),
            decreases ds@.len() - i,
        {
            assert(ds@.take(i as int + 1).drop_last() =~= ds@.take(i as int));
            t1 = t1 + ds[i].team1 as u32;
            t2 = t2 + ds[i].team2 as u32;
            if t1 >= th {
                return Some(Team::Team1);
            }
            if t2 >= th {
                return Some(Team::Team2);
            }
            i = i + 1;
        }
        None
    }
}

/// The camas of one coto; the last one is being played.
#[derive(Debug, Clone, PartialEq, Eq)]
pub struct Coto {
    pub cames: Vec<Cama>,
}

impl View for Coto {
    type V = Seq<Seq<RoundScore>>;

    open spec fn view(&self) -> Seq<Seq<RoundScore>> {
        self.cames@.map_values(|c: Cama| c@)
    }
}

impl Coto {
    /// A coto with one empty cama.
    pub fn new() -> (c: Coto)
        ensures
            c@ == seq![Seq::<RoundScore>::empty()],
            c.cames@.len() == 1,
    {
        let mut coto = Coto { cames: Vec::new() };
        coto.start_cama();
        assert(coto@ =~= seq![Seq::<RoundScore>::empty()]);
        coto
    }

    /// Opens a fresh cama.
    pub fn start_cama(&mut self)
        ensures
            final(self)@ == old(self)@.push(Seq::empty()),
            final(self).cames@.len() == old(self).cames@.len() + 1,
    {
        self.cames.push(Cama::default());
        assert(final(self)@ =~= old(self)@.push(Seq::empty()));
    }

    pub fn get_current_cama(&self) -> (r: &Cama)
        requires
            self.cames@.len() > 0,
        ensures
            *r == self.cames@.last(),
            r@ == self@.last(),
    {
        let n = self.cames.len();
        &self.cames[n - 1]
    }

    pub fn get_current_cama_mut(&mut self) -> (r: &mut Cama)
        requires
            old(self).cames@.len() > 0,
        ensures
            *r == old(self).cames@.last(),
            final(self).cames@ == old(self).cames@.update(
                old(self).cames@.len() - 1,
                *final(r),
            ),
    {
        let n = self.cames.len();
        &mut self.cames[n - 1]
    }

    /// Writes a round into the current cama, and opens a fresh cama when that
    /// one now has a winner.
    pub fn annotate(&mut self, round_score: RoundScore, game_config: GameConfig)
        requires
            old(self).cames@.len() > 0,
        ensures
            final(self)@ == coto_after(old(self)@, round_score, game_config),
            final(self).cames@.len() > 0,
    {
        let n = self.cames.len();
        self.cames[n - 1].annotate(round_score);
        assert(self@ =~= old(self)@.update(
            n - 1,
            old(self)@.last().push(round_score),
        ));
        let sealed = self.cames[n - 1].winner(game_config).is_some();
        if sealed {
            self.start_cama();
        }
    }

    /// The first team to win the coto's number of camas, if any.
    pub fn winner(&self, game_config: GameConfig) -> (r: Option<Team>)
        ensures
            r == coto_winner(self@, game_config),
    {
        let ghost ws = cama_winners(self@, game_config);
        let th = game_config.coto_win_score as usize;
        let mut a: usize = 0;
        let mut b: usize = 0;
        let mut i: usize = 0;
        while i < self.cames.len()
            invariant
                i <= self.cames@.len(),
                ws == cama_winners(self@, game_config),
                ws.len() == self.cames@.len(),
                forall|k: int|
                    0 <= k < ws.len() ==> #[trigger] ws[k] == cama_winner(
                        self.cames@[k]@,
                        game_config.cama_win_score as nat,
                    ),
                th == game_config.coto_win_score,
                a == count_wins(ws.take(i as int), Team::Team1),
                b == count_wins(ws.take(i as int), Team::Team2),
                a <= i && b <= i,
                majority_from(ws, th as nat, 0) == majority_from(ws, th as nat, i as int),
            decreases self.cames@.len() - i,
        {
            assert(ws.take(i as int + 1).drop_last() =~= ws.take(i as int));
            let w = self.cames[i].winner(game_config);
            match w {
                Some(Team::Team1) => {
                    a = a + 1;
                },
                Some(Team::Team2) => {
                    b = b + 1;
                },
                None => {},
            }
            assert(ws[i as int] == w);
            assert(a == count_wins(ws.take(i as int + 1), Team::Team1));
            assert(b == count_wins(ws.take(i as int + 1), Team::Team2));
            if a >= th {
                return Some(Team::Team1);
            }
            if b >= th {
                return Some(Team::Team2);
            }
            i = i + 1;
        }
        None
    }
}

/// All the cotos of a game; the last one is being played.
#[derive(Debug)]
pub struct Scoreboard {
    pub cotos: Vec<Coto>,
    pub game_config: GameConfig,
}

impl View for Scoreboard {
    type V = Seq<Seq<Seq<RoundScore>>>;

    open spec fn view(&self) -> Seq<Seq<Seq<RoundScore>>> {
        self.cotos@.map_values(|c: Coto| c@)
    }
}

impl Scoreboard {
    /// There is a current coto, and every coto has a current cama.
    pub open spec fn wf(&self) -> bool {
        &&& self.cotos@.len() > 0
        &&& forall|i: int| 0 <= i < self.cotos@.len() ==> #[trigger] self.cotos@[i].cames@.len() > 0
    }

    /// Writes a round into the current cama, sealing the cama and the coto
    /// when they now have a winner.
    pub fn annotate(&mut self, round_score: RoundScore)
        requires
            old(self).wf(),
        ensures
            final(self).wf(),
            final(self).game_config == old(self).game_config,
            final(self)@ == board_after(old(self)@, round_score, old(self).game_config),
    {
        let game_config = self.game_config;
        let n = self.cotos.len();
        self.cotos[n - 1].annotate(round_score, game_config);
        assert(self@ =~= old(self)@.update(
            n - 1,
            coto_after(old(self)@.last(), round_score, game_config),
        ));
        let sealed = self.cotos[n - 1].winner(game_config).is_some();
        if sealed {
            self.start_coto();
        }
    }

    /// The points of the current cama.
    pub fn current_cama_score(&self) -> (r: CamaScore)
        requires
            self.wf(),
            sum_team1(cama_deltas(self@.last().last())) <= u8::MAX,
            sum_team2(cama_deltas(self@.last().last())) <= u8::MAX,
        ensures
            r.team1 == sum_team1(cama_deltas(self@.last().last())),
            r.team2 == sum_team2(cama_deltas(self@.last().last())),
    {
        let coto = self.get_current_coto();
        coto.get_current_cama().score()
    }

    /// The first team to win the game's number of cotos, if any.
    pub fn winner(&self, game_config: GameConfig) -> (r: Option<Team>)
        ensures
            r == game_winner(self@, game_config),
    {
        let ghost ws = coto_winners(self@, game_config);
        let th = game_config.game_win_score as usize;
        let mut a: usize = 0;
        let mut b: usize = 0;
        let mut i: usize = 0;
        while i < self.cotos.len()
            invariant
                i <= self.cotos@.len(),
                ws == coto_winners(self@, game_config),
                ws.len() == self.cotos@.len(),
                forall|k: int|
                    0 <= k < ws.len() ==> #[trigger] ws[k] == coto_winner(
                        self.cotos@[k]@,
                        game_config,
                    ),
                th == game_config.game_win_score,
                a == count_wins(ws.take(i as int), Team::Team1),
                b == count_wins(ws.take(i as int), Team::Team2),
                a <= i && b <= i,
                majority_from(ws, th as nat, 0) == majority_from(ws, th as nat, i as int),
            decreases self.cotos@.len() - i,
        {
            assert(ws.take(i as int + 1).drop_last() =~= ws.take(i as int));
            let w = self.cotos[i].winner(game_config);
            match w {
                Some(Team::Team1) => {
                    a = a + 1;
                },
                Some(Team::Team2) => {
                    b = b + 1;
                },
                None => {},
            }
            assert(ws[i as int] == w);
            assert(a == count_wins(ws.take(i as int + 1), Team::Team1));
            assert(b == count_wins(ws.take(i as int + 1), Team::Team2));
            if a >= th {
                return Some(Team::Team1);
            }
            if b >= th {
                return Some(Team::Team2);
            }
            i = i + 1;
        }
        None
    }

    /// Opens a fresh coto, with one empty cama.
    pub fn start_coto(&mut self)
        ensures
            final(self)@ == old(self)@.push(seq![Seq::<RoundScore>::empty()]),
            final(self).game_config == old(self).game_config,
            final(self).cotos@.len() == old(self).cotos@.len() + 1,
            final(self).cotos@.last().cames@.len() == 1,
            forall|i: int|
                0 <= i < old(self).cotos@.len() ==> #[trigger] final(self).cotos@[i]
                    == old(self).cotos@[i],
    {
        self.cotos.push(Coto::new());
        assert(final(self)@ =~= old(self)@.push(seq![Seq::<RoundScore>::empty()]));
    }

    pub fn get_current_coto(&self) -> (r: &Coto)
        requires
            self.cotos@.len() > 0,
        ensures
            *r == self.cotos@.last(),
            r@ == self@.last(),
    {
        let n = self.cotos.len();
        &self.cotos[n - 1]
    }

    pub fn get_current_coto_mut(&mut self) -> (r: &mut Coto)
        requires
            old(self).cotos@.len() > 0,
        ensures
            *r == old(self).cotos@.last(),
            final(self).game_config == old(self).game_config,
            final(self).cotos@ == old(self).cotos@.update(
                old(self).cotos@.len() - 1,
                *final(r),
            ),
    {
        let n = self.cotos.len();
        &mut self.cotos[n - 1]
    }
}

impl Default for Scoreboard {
    /// The default thresholds and one fresh coto.
    fn default() -> (s: Scoreboard)
        ensures
            s.wf(),
            s.game_config == (GameConfig { game_win_score: 2, coto_win_score: 2, cama_win_score: 40 }),
            s@ == seq![seq![Seq::<RoundScore>::empty()]],
    {
        let mut scoreboard = Scoreboard { cotos: Vec::new(), game_config: GameConfig::default() };
        scoreboard.start_coto();
        assert(scoreboard@ =~= seq![seq![Seq::<RoundScore>::empty()]]);
        scoreboard
    }
}

/// Annotating only appends: the sealed cotos, and the sealed camas of the
/// current coto, stay as they were; the current cama gains the round at its
/// end; anything opened after it is empty.
pub proof fn lemma_annotate_appends(
    board: Seq<Seq<Seq<RoundScore>>>,
    round: RoundScore,
    cfg: GameConfig,
)
    requires
        board.len() > 0,
        forall|i: int| 0 <= i < board.len() ==> #[trigger] board[i].len() > 0,
    ensures
        ({
            let after = board_after(board, round, cfg);
            let c = board.len() - 1;
            let m = board[c].len() - 1;
            &&& after.len() == board.len() || after.len() == board.len() + 1
            &&& forall|i: int| 0 <= i < c ==> #[trigger] after[i] == board[i]
            &&& after[c].len() == board[c].len() || after[c].len() == board[c].len() + 1
            &&& forall|j: int| 0 <= j < m ==> #[trigger] after[c][j] == board[c][j]
            &&& after[c][m] == board[c][m].push(round)
            &&& after[c].len() == board[c].len() + 1 ==> after[c][m + 1] == Seq::<RoundScore>::empty()
            &&& after.len() == board.len() + 1 ==> after[c + 1] == seq![Seq::<RoundScore>::empty()]
        }),
{
}

} // verus!
