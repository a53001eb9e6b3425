//! The players of "The Evolution of Trust", and one that answers at random.
//!
//! Each player is a small state machine: its memory is its view, and the three functions of
//! [`PlayerTrait`] say what it answers, what a round does to the memory and what a fresh
//! memory is.

use crate::rounds::{memory_after, Round};
use crate::traits::PlayerTrait;
use crate::worm_bools::RiseOnlyBool;
use vstd::prelude::*;

verus! {

/// Start with cooperating and repeat whatever the opponent does the last round.
///
/// The memory is the opponent's last decision, if there was a round yet.
#[derive(Debug, Clone, Copy)]
pub struct CopyCat {
    last_enemy_consent: Option<bool>,
}

impl View for CopyCat {
    type V = Option<bool>;

    closed spec fn view(&self) -> Option<bool> {
        self.last_enemy_consent
    }
}

impl Default for CopyCat {
    fn default() -> (player: Self)
        ensures
            player@ == None::<bool>,
    {
        Self { last_enemy_consent: None }
    }
}

impl PlayerTrait for CopyCat {
    open spec fn consent(memory: Option<bool>) -> Option<bool> {
        match memory {
            Some(last) => Some(last),
            None => Some(true),
        }
    }

    open spec fn memorized(
        memory: Option<bool>,
        last_consents: (bool, bool),
        last_rewards: (isize, isize),
    ) -> Option<bool> {
        Some(last_consents.1)
    }

    open spec fn forgotten(memory: Option<bool>) -> Option<bool> {
        None
    }

    fn cooperation_consent(&self) -> (consent: bool) {
        match self.last_enemy_consent {
            Some(last) => last,
            None => true,
        }
    }

    fn memorize_last_game(&mut self, last_consents: (bool, bool), last_rewards: (isize, isize)) {
        self.last_enemy_consent = Some(last_consents.1);
    }

    fn forget_games(&mut self) {
        self.last_enemy_consent = None;
    }

    proof fn lemma_clone_keeps_memory(&self, copy: &Self) {
    }
}

/// A player who always cooperates.
#[derive(Debug, Clone, Copy)]
pub struct AllCooperate;

impl View for AllCooperate {
    type V = ();

    open spec fn view(&self) -> () {
        ()
    }
}

impl Default for AllCooperate {
    fn default() -> (player: Self) {
        AllCooperate
    }
}

impl PlayerTrait for AllCooperate {
    open spec fn consent(memory: ()) -> Option<bool> {
        Some(true)
    }

    open spec fn memorized(memory: (), last_consents: (bool, bool), last_rewards: (isize, isize)) {
        ()
    }

    open spec fn forgotten(memory: ()) {
        ()
    }

    fn cooperation_consent(&self) -> (consent: bool) {
        true
    }

    fn memorize_last_game(&mut self, last_consents: (bool, bool), last_rewards: (isize, isize)) {
    }

    fn forget_games(&mut self) {
    }

    proof fn lemma_clone_keeps_memory(&self, copy: &Self) {
    }
}

/// A player who always cheats.
#[derive(Debug, Clone, Copy)]
pub struct AllCheat;

impl View for AllCheat {
    type V = ();

    open spec fn view(&self) -> () {
        ()
    }
}

impl Default for AllCheat {
    fn default() -> (player: Self) {
        AllCheat
    }
}

impl PlayerTrait for AllCheat {
    open spec fn consent(memory: ()) -> Option<bool> {
        Some(false)
    }

    open spec fn memorized(memory: (), last_consents: (bool, bool), last_rewards: (isize, isize)) {
        ()
    }

    open spec fn forgotten(memory: ()) {
        ()
    }

    fn cooperation_consent(&self) -> (consent: bool) {
        false
    }

    fn memorize_last_game(&mut self, last_consents: (bool, bool), last_rewards: (isize, isize)) {
    }

    fn forget_games(&mut self) {
    }

    proof fn lemma_clone_keeps_memory(&self, copy: &Self) {
    }
}

/// Cooperate till never been cheated.
///
/// The memory is whether the opponent has cheated since the memory was last reset.
#[derive(Debug, Clone, Copy)]
pub struct Grudger {
    been_cheated: RiseOnlyBool,
}

impl View for Grudger {
    type V = bool;

    closed spec fn view(&self) -> bool {
        self.been_cheated.risen()
    }
}

impl Default for Grudger {
    fn default() -> (player: Self)
        ensures
            !player@,
    {
        Self { been_cheated: RiseOnlyBool::new(false) }
    }
}

impl PlayerTrait for Grudger {
    open spec fn consent(memory: bool) -> Option<bool> {
        Some(!memory)
    }

    open spec fn memorized(
        memory: bool,
        last_consents: (bool, bool),
        last_rewards: (isize, isize),
    ) -> bool {
        memory || !last_consents.1
    }

    open spec fn forgotten(memory: bool) -> bool {
        false
    }

    fn cooperation_consent(&self) -> (consent: bool) {
        !self.been_cheated.value()
    }

    fn memorize_last_game(&mut self, last_consents: (bool, bool), last_rewards: (isize, isize)) {
        self.been_cheated.rise_if(!last_consents.1);
    }

    fn forget_games(&mut self) {
        self.been_cheated = RiseOnlyBool::new(false);
    }

    proof fn lemma_clone_keeps_memory(&self, copy: &Self) {
    }
}

/// Start by cooperate and if cooperated, repeats last move else, does opposite of the last.
///
/// Note that this player sees what are the results of the machine. Since machines and arenas
/// may not be fair, he repeats the last thing, even if it was a mistake. The memory is the
/// next move.
#[derive(Debug, Clone, Copy)]
pub struct Simpleton {
    next_move: bool,
}

impl View for Simpleton {
    type V = bool;

    closed spec fn view(&self) -> bool {
        self.next_move
    }
}

impl Default for Simpleton {
    fn default() -> (player: Self)
        ensures
            player@,
    {
        Self { next_move: true }
    }
}

impl PlayerTrait for Simpleton {
    open spec fn consent(memory: bool) -> Option<bool> {
        Some(memory)
    }

    open spec fn memorized(
        memory: bool,
        last_consents: (bool, bool),
        last_rewards: (isize, isize),
    ) -> bool {
        if last_consents.1 {
            last_consents.0
        } else {
            !last_consents.0
        }
    }

    open spec fn forgotten(memory: bool) -> bool {
        true
    }

    fn cooperation_consent(&self) -> (consent: bool) {
        self.next_move
    }

    fn memorize_last_game(&mut self, last_consents: (bool, bool), last_rewards: (isize, isize)) {
        self.next_move = if last_consents.1 {
            last_consents.0
        } else {
            !last_consents.0
        };
    }

    fn forget_games(&mut self) {
        self.next_move = true;
    }

    proof fn lemma_clone_keeps_memory(&self, copy: &Self) {
    }
}

/// What a [`KindCopyCat`] remembers.
pub struct KindCopyCatMemory {
    /// Only retaliates after the number of mistakes is passed.
    pub mistakes_allowed: nat,
    /// How many times has been cheated in row.
    pub cheated_in_row: nat,
}

/// Copy kitten, allows for a number of repeated cheats before retaliating.
#[derive(Debug, Clone, Copy)]
pub struct KindCopyCat {
    /// Only retaliates after the number of mistakes is passed.
    mistakes_allowed: usize,
    /// How many times has been cheated in row.
    cheated_in_row: usize,
}

impl View for KindCopyCat {
    type V = KindCopyCatMemory;

    closed spec fn view(&self) -> KindCopyCatMemory {
        KindCopyCatMemory {
            mistakes_allowed: self.mistakes_allowed as nat,
            cheated_in_row: self.cheated_in_row as nat,
        }
    }
}

impl KindCopyCat {
    /// A player that forgives `mistakes_allowed` cheats in a row and has not been cheated yet.
    pub fn new(mistakes_allowed: usize) -> (player: Self)
        ensures
            player@ == (KindCopyCatMemory {
                mistakes_allowed: mistakes_allowed as nat,
                cheated_in_row: 0,
            }),
    {
        Self { mistakes_allowed, cheated_in_row: 0 }
    }
}

impl Default for KindCopyCat {
    fn default() -> (player: Self)
        ensures
            player@ == (KindCopyCatMemory { mistakes_allowed: 1, cheated_in_row: 0 }),
    {
        Self::new(1)
    }
}

impl PlayerTrait for KindCopyCat {
    open spec fn consent(memory: KindCopyCatMemory) -> Option<bool> {
        Some(memory.cheated_in_row <= memory.mistakes_allowed)
    }

    /// A cooperating opponent clears the count; a cheat is counted only while the player
    /// still cooperates, and never beyond `usize::MAX`.
    open spec fn memorized(
        memory: KindCopyCatMemory,
        last_consents: (bool, bool),
        last_rewards: (isize, isize),
    ) -> KindCopyCatMemory {
        if last_consents.1 {
            KindCopyCatMemory { cheated_in_row: 0, ..memory }
        } else if memory.cheated_in_row <= memory.mistakes_allowed && memory.cheated_in_row
            < usize::MAX {
            KindCopyCatMemory { cheated_in_row: memory.cheated_in_row + 1, ..memory }
        } else {
            memory
        }
    }

    open spec fn forgotten(memory: KindCopyCatMemory) -> KindCopyCatMemory {
        KindCopyCatMemory { cheated_in_row: 0, ..memory }
    }

    fn cooperation_consent(&self) -> (consent: bool) {
        self.cheated_in_row <= self.mistakes_allowed
    }

    fn memorize_last_game(&mut self, last_consents: (bool, bool), last_rewards: (isize, isize)) {
        if last_consents.1 {
            self.cheated_in_row = 0;
        } else {
            // if already distrustful (no consent), do not increase the counter not to overflow
            if self.cooperation_consent() && self.cheated_in_row < usize::MAX {
                self.cheated_in_row += 1;
            }
        }
    }

    fn forget_games(&mut self) {
        self.cheated_in_row = 0;
    }

    proof fn lemma_clone_keeps_memory(&self, copy: &Self) {
    }
}

/// What a [`Detective`] remembers.
pub struct DetectiveMemory {
    /// The moves that the detective opens with, whatever the opponent does.
    pub script: Seq<bool>,
    /// How many rounds of the script have been seen.
    pub stage: nat,
    /// Whether the opponent cheated in one of the rounds of the script.
    pub been_cheated: bool,
    /// The next move.
    pub next: bool,
}

impl DetectiveMemory {
    /// The memory of a detective that is about to open with `script`; with an empty script it
    /// opens by cooperating.
    pub open spec fn fresh(script: Seq<bool>) -> DetectiveMemory {
        DetectiveMemory {
            script,
            stage: 0,
            been_cheated: false,
            next: if script.len() > 0 {
                script[0]
            } else {
                true
            },
        }
    }
}

/// Plays a fixed strategy and if cheated turns to copycat else cheats.
#[derive(Debug)]
pub struct Detective {
    been_cheated_in_analysing: RiseOnlyBool,
    /// How far the detective is in the analysis.
    analysing_stage: usize,
    /// Determines how the detective analysis the user.
    analysing_strategy: Vec<bool>,
    /// The memory of what to play next.
    next_strategy: bool,
}

impl View for Detective {
    type V = DetectiveMemory;

    closed spec fn view(&self) -> DetectiveMemory {
        DetectiveMemory {
            script: self.analysing_strategy@,
            stage: self.analysing_stage as nat,
            been_cheated: self.been_cheated_in_analysing.risen(),
            next: self.next_strategy,
        }
    }
}

impl Clone for Detective {
    fn clone(&self) -> (copy: Self)
        ensures
            copy@ == self@,
    {
        Self {
            been_cheated_in_analysing: self.been_cheated_in_analysing,
            analysing_stage: self.analysing_stage,
            analysing_strategy: self.analysing_strategy.clone(),
            next_strategy: self.next_strategy,
        }
    }
}

impl Detective {
    /// A detective that opens with `initial_strategy` and has met nobody yet.
    pub fn new(initial_strategy: Vec<bool>) -> (player: Self)
        ensures
            player@ == DetectiveMemory::fresh(initial_strategy@),
    {
        let next_strategy = if initial_strategy.len() > 0 {
            initial_strategy[0]
        } else {
            true
        };
        Self {
            next_strategy,
            analysing_strategy: initial_strategy,
            analysing_stage: 0,
            been_cheated_in_analysing: RiseOnlyBool::new(false),
        }
    }
}

impl Default for Detective {
    fn default() -> (player: Self)
        ensures
            player@ == DetectiveMemory::fresh(seq![true, false, true, true]),
    {
        let script: Vec<bool> = vec![true, false, true, true];
        assert(script@ == seq![true, false, true, true]);
        Self::new(script)
    }
}

impl PlayerTrait for Detective {
    open spec fn consent(memory: DetectiveMemory) -> Option<bool> {
        Some(memory.next)
    }

    /// In each round of the script a cheat of the opponent is noted, and the next move of the
    /// script is taken while one is left. From the last round of the script on, the
    /// opponent's move is copied if a cheat was noted, and answered by cheating if none was.
    open spec fn memorized(
        memory: DetectiveMemory,
        last_consents: (bool, bool),
        last_rewards: (isize, isize),
    ) -> DetectiveMemory {
        if memory.stage < memory.script.len() {
            let been_cheated = memory.been_cheated || !last_consents.1;
            DetectiveMemory {
                script: memory.script,
                stage: memory.stage + 1,
                been_cheated,
                next: if memory.stage + 1 < memory.script.len() {
                    memory.script[(memory.stage + 1) as int]
                } else {
                    been_cheated && last_consents.1
                },
            }
        } else {
            DetectiveMemory { next: memory.been_cheated && last_consents.1, ..memory }
        }
    }

    open spec fn forgotten(memory: DetectiveMemory) -> DetectiveMemory {
        DetectiveMemory::fresh(memory.script)
    }

    fn cooperation_consent(&self) -> (consent: bool) {
        self.next_strategy
    }

    fn memorize_last_game(&mut self, last_consents: (bool, bool), last_rewards: (isize, isize)) {
        if self.analysing_stage < self.analysing_strategy.len() {
            // memorize if enemy did retaliate ever
            self.been_cheated_in_analysing.rise_if(!last_consents.1);
            self.analysing_stage += 1;  // do not increase post-analysis not to overflow hence in if
        }
        if self.analysing_stage < self.analysing_strategy.len() {
            self.next_strategy = self.analysing_strategy[self.analysing_stage];
        } else {
            self.next_strategy = *self.been_cheated_in_analysing && last_consents.1;
        }
    }

    fn forget_games(&mut self) {
        self.next_strategy = if self.analysing_strategy.len() > 0 {
            self.analysing_strategy[0]
        } else {
            true
        };
        self.analysing_stage = 0;
        self.been_cheated_in_analysing = RiseOnlyBool::new(false);
    }

    proof fn lemma_clone_keeps_memory(&self, copy: &Self) {
    }
}

/// A fair coin from `rand::random`, which draws from the generator of the running thread.
/// Nothing is known of the result before the call.
#[verifier::external_body]
fn toss_coin() -> (heads: bool) {
    rand::random()
}

/// Randomly consents or doesn't.
#[derive(Debug, Clone, Copy)]
pub struct Random;

impl View for Random {
    type V = ();

    open spec fn view(&self) -> () {
        ()
    }
}

impl Default for Random {
    fn default() -> (player: Self) {
        Random
    }
}

impl PlayerTrait for Random {
    open spec fn consent(memory: ()) -> Option<bool> {
        None
    }

    open spec fn memorized(memory: (), last_consents: (bool, bool), last_rewards: (isize, isize)) {
        ()
    }

    open spec fn forgotten(memory: ()) {
        ()
    }

    fn cooperation_consent(&self) -> (consent: bool) {
        toss_coin()
    }

    fn memorize_last_game(&mut self, last_consents: (bool, bool), last_rewards: (isize, isize)) {
    }

    fn forget_games(&mut self) {
    }

    proof fn lemma_clone_keeps_memory(&self, copy: &Self) {
    }
}

/// Any of the players of this module, so that a list can hold players of different kinds.
#[derive(Debug)]
pub enum Player {
    CopyCat(CopyCat),
    AllCooperate(AllCooperate),
    AllCheat(AllCheat),
    Grudger(Grudger),
    Detective(Detective),
    KindCopyCat(KindCopyCat),
    Simpleton(Simpleton),
    Random(Random),
}

/// What a [`Player`] remembers: the memory of the player it holds.
pub enum PlayerMemory {
    CopyCat(Option<bool>),
    AllCooperate,
    AllCheat,
    Grudger(bool),
    Detective(DetectiveMemory),
    KindCopyCat(KindCopyCatMemory),
    Simpleton(bool),
    Random,
}

impl View for Player {
    type V = PlayerMemory;

    open spec fn view(&self) -> PlayerMemory {
        match self {
            Player::CopyCat(player) => PlayerMemory::CopyCat(player@),
            Player::AllCooperate(_) => PlayerMemory::AllCooperate,
            Player::AllCheat(_) => PlayerMemory::AllCheat,
            Player::Grudger(player) => PlayerMemory::Grudger(player@),
            Player::Detective(player) => PlayerMemory::Detective(player@),
            Player::KindCopyCat(player) => PlayerMemory::KindCopyCat(player@),
            Player::Simpleton(player) => PlayerMemory::Simpleton(player@),
            Player::Random(_) => PlayerMemory::Random,
        }
    }
}

impl Clone for Player {
    fn clone(&self) -> (copy: Self)
        ensures
            copy@ == self@,
    {
        match self {
            Player::CopyCat(player) => Player::CopyCat(*player),
            Player::AllCooperate(player) => Player::AllCooperate(*player),
            Player::AllCheat(player) => Player::AllCheat(*player),
            Player::Grudger(player) => Player::Grudger(*player),
            Player::Detective(player) => Player::Detective(player.clone()),
            Player::KindCopyCat(player) => Player::KindCopyCat(*player),
            Player::Simpleton(player) => Player::Simpleton(*player),
            Player::Random(player) => Player::Random(*player),
        }
    }
}

impl PlayerTrait for Player {
    open spec fn consent(memory: PlayerMemory) -> Option<bool> {
        match memory {
            PlayerMemory::CopyCat(inner) => CopyCat::consent(inner),
            PlayerMemory::AllCooperate => AllCooperate::consent(()),
            PlayerMemory::AllCheat => AllCheat::consent(()),
            PlayerMemory::Grudger(inner) => Grudger::consent(inner),
            PlayerMemory::Detective(inner) => Detective::consent(inner),
            PlayerMemory::KindCopyCat(inner) => KindCopyCat::consent(inner),
            PlayerMemory::Simpleton(inner) => Simpleton::consent(inner),
            PlayerMemory::Random => Random::consent(()),
        }
    }

    open spec fn memorized(
        memory: PlayerMemory,
        last_consents: (bool, bool),
        last_rewards: (isize, isize),
    ) -> PlayerMemory {
        match memory {
            PlayerMemory::CopyCat(inner) => PlayerMemory::CopyCat(
                CopyCat::memorized(inner, last_consents, last_rewards),
            ),
            PlayerMemory::AllCooperate => PlayerMemory::AllCooperate,
            PlayerMemory::AllCheat => PlayerMemory::AllCheat,
            PlayerMemory::Grudger(inner) => PlayerMemory::Grudger(
                Grudger::memorized(inner, last_consents, last_rewards),
            ),
            PlayerMemory::Detective(inner) => PlayerMemory::Detective(
                Detective::memorized(inner, last_consents, last_rewards),
            ),
            PlayerMemory::KindCopyCat(inner) => PlayerMemory::KindCopyCat(
                KindCopyCat::memorized(inner, last_consents, last_rewards),
            ),
            PlayerMemory::Simpleton(inner) => PlayerMemory::Simpleton(
                Simpleton::memorized(inner, last_consents, last_rewards),
            ),
            PlayerMemory::Random => PlayerMemory::Random,
        }
    }

    open spec fn forgotten(memory: PlayerMemory) -> PlayerMemory {
        match memory {
            PlayerMemory::CopyCat(inner) => PlayerMemory::CopyCat(CopyCat::forgotten(inner)),
            PlayerMemory::AllCooperate => PlayerMemory::AllCooperate,
            PlayerMemory::AllCheat => PlayerMemory::AllCheat,
            PlayerMemory::Grudger(inner) => PlayerMemory::Grudger(Grudger::forgotten(inner)),
            PlayerMemory::Detective(inner) => PlayerMemory::Detective(
                Detective::forgotten(inner),
            ),
            PlayerMemory::KindCopyCat(inner) => PlayerMemory::KindCopyCat(
                KindCopyCat::forgotten(inner),
            ),
            PlayerMemory::Simpleton(inner) => PlayerMemory::Simpleton(
                Simpleton::forgotten(inner),
            ),
            PlayerMemory::Random => PlayerMemory::Random,
        }
    }

    fn cooperation_consent(&self) -> (consent: bool) {
        match self {
            Player::CopyCat(player) => player.cooperation_consent(),
            Player::AllCooperate(player) => player.cooperation_consent(),
            Player::AllCheat(player) => player.cooperation_consent(),
            Player::Grudger(player) => player.cooperation_consent(),
            Player::Detective(player) => player.cooperation_consent(),
            Player::KindCopyCat(player) => player.cooperation_consent(),
            Player::Simpleton(player) => player.cooperation_consent(),
            Player::Random(player) => player.cooperation_consent(),
        }
    }

    fn memorize_last_game(&mut self, last_consents: (bool, bool), last_rewards: (isize, isize)) {
        match self {
            Player::CopyCat(player) => player.memorize_last_game(last_consents, last_rewards),
            Player::AllCooperate(player) => player.memorize_last_game(
                last_consents,
                last_rewards,
            ),
            Player::AllCheat(player) => player.memorize_last_game(last_consents, last_rewards),
            Player::Grudger(player) => player.memorize_last_game(last_consents, last_rewards),
            Player::Detective(player) => player.memorize_last_game(last_consents, last_rewards),
            Player::KindCopyCat(player) => player.memorize_last_game(
                last_consents,
                last_rewards,
            ),
            Player::Simpleton(player) => player.memorize_last_game(last_consents, last_rewards),
            Player::Random(player) => player.memorize_last_game(last_consents, last_rewards),
        }
    }

    fn forget_games(&mut self) {
        match self {
            Player::CopyCat(player) => player.forget_games(),
            Player::AllCooperate(player) => player.forget_games(),
            Player::AllCheat(player) => player.forget_games(),
            Player::Grudger(player) => player.forget_games(),
            Player::Detective(player) => player.forget_games(),
            Player::KindCopyCat(player) => player.forget_games(),
            Player::Simpleton(player) => player.forget_games(),
            Player::Random(player) => player.forget_games(),
        }
    }

    proof fn lemma_clone_keeps_memory(&self, copy: &Self) {
    }
}

/// Whether the opponent cheated in one of the first `rounds` rounds of `seen`.
pub open spec fn cheated_within(seen: Seq<Round>, rounds: int) -> bool {
    exists|k: int| 0 <= k < rounds && k < seen.len() && !(#[trigger] seen[k]).consents.1
}

/// A grudger bears its grudge from the first cheat of the opponent on, whatever the opponent
/// does after it, and only forgetting clears it.
pub proof fn lemma_grudger_never_forgives(memory: bool, seen: Seq<Round>)
    ensures
        memory_after::<Grudger>(memory, seen) == (memory || cheated_within(
            seen,
            seen.len() as int,
        )),
        memory ==> Grudger::consent(memory_after::<Grudger>(memory, seen)) == Some(false),
        !Grudger::forgotten(memory_after::<Grudger>(memory, seen)),
    decreases seen.len(),
{
    if seen.len() > 0 {
        let earlier = seen.drop_last();
        lemma_grudger_never_forgives(memory, earlier);
        if cheated_within(earlier, earlier.len() as int) {
            let k = choose|k: int|
                0 <= k < earlier.len() && k < earlier.len() && !(#[trigger] earlier[k]).consents.1;
            assert(!seen[k].consents.1);
        }
        if !seen.last().consents.1 {
            assert(!seen[seen.len() - 1].consents.1);
        }
        if cheated_within(seen, seen.len() as int) {
            let k = choose|k: int|
                0 <= k < seen.len() && k < seen.len() && !(#[trigger] seen[k]).consents.1;
            if k < earlier.len() {
                assert(!earlier[k].consents.1);
            }
        }
    }
}

/// A kind copycat that has not been cheated of late cooperates through as many cheats in a
/// row as it allows, and cheats from the next one on.
pub proof fn lemma_kind_copycat_tolerance(memory: KindCopyCatMemory, cheats: Seq<Round>)
    requires
        memory.cheated_in_row == 0,
        memory.mistakes_allowed < usize::MAX,
        forall|k: int| 0 <= k < cheats.len() ==> !(#[trigger] cheats[k]).consents.1,
    ensures
        memory_after::<KindCopyCat>(memory, cheats) == (KindCopyCatMemory {
            cheated_in_row: if cheats.len() <= memory.mistakes_allowed {
                cheats.len()
            } else {
                memory.mistakes_allowed + 1
            },
            ..memory
        }),
        KindCopyCat::consent(memory_after::<KindCopyCat>(memory, cheats)) == Some(
            cheats.len() <= memory.mistakes_allowed,
        ),
    decreases cheats.len(),
{
    if cheats.len() > 0 {
        let earlier = cheats.drop_last();
        assert forall|k: int| 0 <= k < earlier.len() implies !(#[trigger] earlier[k]).consents.1 by {
            assert(earlier[k] == cheats[k]);
        }
        lemma_kind_copycat_tolerance(memory, earlier);
        assert(!cheats[cheats.len() - 1].consents.1);
    }
}

/// One cooperation of the opponent makes a kind copycat cooperate again.
pub proof fn lemma_kind_copycat_forgives(
    memory: KindCopyCatMemory,
    last_consents: (bool, bool),
    last_rewards: (isize, isize),
)
    requires
        last_consents.1,
    ensures
        KindCopyCat::memorized(memory, last_consents, last_rewards).cheated_in_row == 0,
        KindCopyCat::consent(KindCopyCat::memorized(memory, last_consents, last_rewards)) == Some(
            true,
        ),
{
}

/// A detective plays its script move by move whatever it sees, and notes a cheat of the
/// opponent in each round of the script. Once the script is over, it copies the opponent's
/// last move if it noted a cheat, and cheats if it noted none.
pub proof fn lemma_detective(script: Seq<bool>, seen: Seq<Round>)
    ensures
        ({
            let memory = memory_after::<Detective>(DetectiveMemory::fresh(script), seen);
            &&& memory.script == script
            &&& memory.stage == if seen.len() < script.len() {
                seen.len()
            } else {
                script.len()
            }
            &&& memory.been_cheated == cheated_within(seen, script.len() as int)
            &&& seen.len() < script.len() ==> Detective::consent(memory) == Some(
                script[seen.len() as int],
            )
            &&& seen.len() > 0 && seen.len() >= script.len() ==> Detective::consent(memory)
                == Some(cheated_within(seen, script.len() as int) && seen.last().consents.1)
        }),
    decreases seen.len(),
{
    let limit = script.len() as int;
    if seen.len() > 0 {
        let earlier = seen.drop_last();
        lemma_detective(script, earlier);
        if cheated_within(earlier, limit) {
            let k = choose|k: int|
                0 <= k < limit && k < earlier.len() && !(#[trigger] earlier[k]).consents.1;
            assert(!seen[k].consents.1);
        }
        if cheated_within(seen, limit) {
            let k = choose|k: int|
                0 <= k < limit && k < seen.len() && !(#[trigger] seen[k]).consents.1;
            if k < earlier.len() {
                assert(!earlier[k].consents.1);
            }
        }
        if seen.len() <= script.len() && !seen.last().consents.1 {
            assert(!seen[seen.len() - 1].consents.1);
        }
    } else {
        if cheated_within(seen, limit) {
            let k = choose|k: int|
                0 <= k < limit && k < seen.len() && !(#[trigger] seen[k]).consents.1;
        }
    }
}

} // verus!
