use evolution_of_trust::errors::ArenaError;
use evolution_of_trust::genetics::GeneticStrategy;
use evolution_of_trust::machines::Machine;
use evolution_of_trust::matches::{Arena, Match};
use evolution_of_trust::matrices::GameMatrix;
use evolution_of_trust::players::{
    AllCheat, AllCooperate, CopyCat, Detective, Grudger, KindCopyCat, Player, Simpleton,
};
use evolution_of_trust::traits::{MachineTrait, MatchTrait, PlayerTrait};

fn catalog() -> Vec<Player> {
    vec![
        Player::CopyCat(CopyCat::default()),
        Player::AllCheat(AllCheat::default()),
        Player::AllCooperate(AllCooperate::default()),
        Player::Grudger(Grudger::default()),
        Player::Detective(Detective::default()),
        Player::KindCopyCat(KindCopyCat::default()),
        Player::Simpleton(Simpleton::default()),
    ]
}

fn test_arena(
    copycats: (usize, isize),
    allcheaters: (usize, isize),
    allcooperates: (usize, isize),
    grudgers: (usize, isize),
    detectives: (usize, isize),
    kindcopycats: (usize, isize),
    simpletons: (usize, isize),
    next_gen_players: Vec<usize>,
) {
    let mut scores = vec![];

    let mut players: Vec<_> = vec![];
    for (i, c) in vec![
        copycats.0,
        allcheaters.0,
        allcooperates.0,
        grudgers.0,
        detectives.0,
        kindcopycats.0,
        simpletons.0,
    ]
    .into_iter()
    .enumerate()
    {
        players.append(&mut vec![i; c]);
    }

    let mut arena = Arena::new(
        Machine::default(),
        catalog(),
        players,
        10,
        GeneticStrategy::CullingElitism(5, 5),
    )
    .unwrap();
    arena.play();

    scores.append(&mut vec![copycats.1; copycats.0]);
    scores.append(&mut vec![allcheaters.1; allcheaters.0]);
    scores.append(&mut vec![allcooperates.1; allcooperates.0]);
    scores.append(&mut vec![grudgers.1; grudgers.0]);
    scores.append(&mut vec![detectives.1; detectives.0]);
    scores.append(&mut vec![kindcopycats.1; kindcopycats.0]);
    scores.append(&mut vec![simpletons.1; simpletons.0]);

    assert_eq!(arena.scores(), &scores);

    let mut players = arena.players().clone();
    players.sort();
    assert_eq!(players, next_gen_players)
}

#[test]
fn test_arena_1_step() {
    test_arena(
        (25, 480),
        (0, 0),
        (0, 0),
        (0, 0),
        (0, 0),
        (0, 0),
        (0, 0),
        vec![
            0, 0, 0, 0, 0, 0, 0, 0, 0, 0, 0, 0, 0, 0, 0, 0, 0, 0, 0, 0, 0, 0, 0, 0, 0,
        ],
    );
    test_arena(
        (24, 459),
        (1, 72),
        (0, 0),
        (0, 0),
        (0, 0),
        (0, 0),
        (0, 0),
        vec![
            0, 0, 0, 0, 0, 0, 0, 0, 0, 0, 0, 0, 0, 0, 0, 0, 0, 0, 0, 0, 0, 0, 0, 0, 0,
        ],
    );
    test_arena(
        (1, -24),
        (24, 3),
        (0, 0),
        (0, 0),
        (0, 0),
        (0, 0),
        (0, 0),
        vec![
            1, 1, 1, 1, 1, 1, 1, 1, 1, 1, 1, 1, 1, 1, 1, 1, 1, 1, 1, 1, 1, 1, 1, 1, 1,
        ],
    );
    test_arena(
        (9, 312),
        (8, 267),
        (8, 240),
        (0, 0),
        (0, 0),
        (0, 0),
        (0, 0),
        vec![
            0, 0, 0, 0, 0, 0, 0, 0, 0, 0, 0, 0, 0, 0, 1, 1, 1, 1, 1, 1, 1, 1, 2, 2, 2,
        ],
    );
    test_arena(
        (13, 480),
        (0, 0),
        (0, 0),
        (0, 0),
        (0, 0),
        (12, 480),
        (0, 0),
        vec![
            0, 0, 0, 0, 0, 0, 0, 0, 5, 5, 5, 5, 5, 5, 5, 5, 5, 5, 5, 5, 5, 5, 5, 5, 5,
        ],
    );
    test_arena(
        (7, 249),
        (11, 63),
        (0, 0),
        (0, 0),
        (0, 0),
        (7, 238),
        (0, 0),
        vec![
            0, 0, 0, 0, 0, 0, 0, 0, 0, 0, 0, 0, 1, 1, 1, 1, 1, 1, 5, 5, 5, 5, 5, 5, 5,
        ],
    );
    test_arena(
        (0, 0),
        (0, 0),
        (25, 480),
        (0, 0),
        (0, 0),
        (0, 0),
        (0, 0),
        vec![
            2, 2, 2, 2, 2, 2, 2, 2, 2, 2, 2, 2, 2, 2, 2, 2, 2, 2, 2, 2, 2, 2, 2, 2, 2,
        ],
    );
    test_arena(
        (6, 390),
        (4, 207),
        (3, 297),
        (3, 357),
        (3, 288),
        (3, 341),
        (3, 353),
        vec![
            0, 0, 0, 0, 0, 0, 0, 0, 0, 0, 0, 2, 2, 2, 3, 3, 3, 4, 4, 5, 5, 5, 6, 6, 6,
        ],
    );
}

#[test]
fn test_machine_default_allcheat_allcheat() {
    let mut game = Match::<AllCheat, AllCheat>::default();
    game.play_for_rounds(5);
    assert_eq!(game.machine.scores, (0, 0));
}

#[test]
fn test_machine_default_allcooperate_allcooperate() {
    let mut game = Match::<AllCooperate, AllCooperate>::default();
    game.play_for_rounds(5);
    assert_eq!(game.machine.scores, (10, 10));
}

#[test]
fn test_machine_default_copycat_copycat() {
    let mut game = Match::<CopyCat, CopyCat>::default();
    game.play_for_rounds(5);
    assert_eq!(game.machine.scores, (10, 10));
}

#[test]
fn test_machine_default_copycat_allcooperate() {
    let mut game = Match::<AllCooperate, CopyCat>::default();
    game.play_for_rounds(5);
    assert_eq!(game.machine.scores, (10, 10));
}

#[test]
fn test_machine_default_allcheat_allcooperate() {
    let mut game = Match::<AllCheat, AllCooperate>::default();
    game.play_for_rounds(5);
    assert_eq!(game.machine.scores, (15, -5));
}

#[test]
fn test_machine_default_allcheat_copycat() {
    let mut game = Match::<AllCheat, CopyCat>::default();
    game.play_for_rounds(5);
    assert_eq!(game.machine.scores, (3, -1));
}

#[test]
fn test_machine_default_allcheat_kindcopycat() {
    let mut game = Match::<AllCheat, KindCopyCat>::default();
    game.play_for_rounds(5);
    assert_eq!(game.machine.scores, (6, -2));
}

#[test]
fn test_machine_default_allcheat_simpleton() {
    let mut game = Match::<AllCheat, Simpleton>::default();
    game.play_for_rounds(5);
    assert_eq!(game.machine.scores, (9, -3));
}

#[test]
fn test_machine_default_allcooperate_simpleton() {
    let mut game = Match::<AllCooperate, Simpleton>::default();
    game.play_for_rounds(5);
    assert_eq!(game.machine.scores, (10, 10));
}

#[test]
fn test_machine_default_allcooperate_detective() {
    let mut game = Match::<AllCooperate, Detective>::default();
    game.play_for_rounds(5);
    assert_eq!(game.machine.scores, (4, 12));
}

#[test]
fn test_machine_default_allcheat_detective() {
    let mut game = Match::<AllCheat, Detective>::default();
    game.play_for_rounds(5);
    assert_eq!(game.machine.scores, (9, -3));
}

#[test]
fn test_machine_default_copycat_detective() {
    let mut game = Match::<CopyCat, Detective>::default();
    game.play_for_rounds(5);
    assert_eq!(game.machine.scores, (8, 8));
}

#[test]
fn test_match_play_tells_each_side_its_own_view() {
    // an asymmetric table shows a transposed broadcast at once
    let matrix = GameMatrix { cc: (1, 10), cd: (2, 20), dc: (3, 30), dd: (4, 40) };
    let mut game = Match {
        machine: Machine::new(matrix),
        players: (AllCheat::default(), CopyCat::default()),
    };
    game.play();
    assert_eq!(game.machine.scores, (3, 30));
    game.play();
    assert_eq!(game.machine.scores, (7, 70));
    game.play_for_rounds(0);
    assert_eq!(game.machine.scores, (7, 70));

    let mut game = Match {
        machine: Machine::default(),
        players: (Simpleton::default(), AllCheat::default()),
    };
    // simpleton: C (cheated: shifts), D (cheated again: shifts), C, D
    game.play_for_rounds(4);
    assert_eq!(game.machine.scores, (-2, 6));
}

#[test]
fn test_machine_scores_and_reset() {
    let mut machine = Machine::default();
    assert_eq!(machine.play_off_record((true, false)), (-1, 3));
    assert_eq!(machine.scores(), (0, 0));
    assert_eq!(machine.play((true, false)), (-1, 3));
    assert_eq!(machine.play((false, true)), (3, -1));
    assert_eq!(machine.play((true, true)), (2, 2));
    assert_eq!(machine.play((false, false)), (0, 0));
    assert_eq!(machine.scores(), (4, 4));
    machine.record_scores((10, -20));
    assert_eq!(machine.scores(), (14, -16));
    machine.reset_scores();
    assert_eq!(machine.scores(), (0, 0));
    let copy = machine.clone();
    assert_eq!(copy.matrix.cd, (-1, 3));
}

#[test]
fn test_game_matrix_lookup() {
    let matrix = GameMatrix::default();
    assert_eq!(matrix.get_for_consents((true, true)), &(2, 2));
    assert_eq!(matrix.get_for_consents((true, false)), &(-1, 3));
    assert_eq!(matrix.get_for_consents((false, true)), &(3, -1));
    assert_eq!(matrix.get_for_consents((false, false)), &(0, 0));
    let words = GameMatrix { cc: ("a", "b"), cd: ("c", "d"), dc: ("e", "f"), dd: ("g", "h") };
    assert_eq!(words.get_for_consents((false, true)), &("e", "f"));
    assert_eq!(words.clone().get_for_consents((true, false)), &("c", "d"));
}

#[test]
fn test_arena_new_rejects_unknown_players() {
    let made = Arena::new(Machine::default(), catalog(), vec![0, 7, 1], 10, GeneticStrategy::Keep);
    assert!(matches!(made, Err(ArenaError::UnknownPlayer)));
    let made = Arena::new(Machine::default(), catalog(), vec![6, 0, 6], 10, GeneticStrategy::Keep);
    assert!(made.is_ok());
    let made = Arena::new(
        Machine::default(),
        Vec::<Player>::new(),
        vec![0],
        10,
        GeneticStrategy::Keep,
    );
    assert!(matches!(made, Err(ArenaError::UnknownPlayer)));
    assert_eq!(
        ArenaError::UnknownPlayer.message(),
        "The given ID in the players list is not in constructors."
    );
}

#[test]
fn test_arena_new_clears_the_prototypes() {
    let mut grudger = Grudger::default();
    grudger.memorize_last_game((true, false), (-1, 3));
    assert_eq!(grudger.cooperation_consent(), false);
    let mut arena = Arena::new(
        Machine::default(),
        vec![Player::Grudger(grudger), Player::AllCooperate(AllCooperate::default())],
        vec![0, 1],
        3,
        GeneticStrategy::Keep,
    )
    .unwrap();
    assert!(arena.scores().is_empty());
    arena.play();
    // a grudger that still bore its grudge would have taken 9 from the cooperator
    assert_eq!(arena.scores(), &vec![6, 6]);
}

#[test]
fn test_arena_with_an_empty_population() {
    let mut arena = Arena::new(
        Machine::default(),
        catalog(),
        vec![],
        10,
        GeneticStrategy::CullingElitism(5, 5),
    )
    .unwrap();
    arena.play();
    assert!(arena.scores().is_empty());
    assert!(arena.players().is_empty());
}

#[test]
fn test_arena_ranks_by_score_and_keeps_ties_in_order() {
    // catalog: 0 copycat, 1 cheater, 2 cooperator
    let mut arena = Arena::new(
        Machine::default(),
        catalog(),
        vec![1, 2, 0, 2],
        10,
        GeneticStrategy::Keep,
    )
    .unwrap();
    arena.play();
    // cheater: 30 + 3 + 30; cooperators: -10 + 20 + 20; copycat: -1 + 20 + 20
    assert_eq!(arena.scores(), &vec![63, 30, 39, 30]);
    assert_eq!(arena.players(), &vec![2, 2, 0, 1]);
    let total: isize = arena.scores().iter().sum();
    // three pairings with the cheater and three without it
    assert_eq!(total, (30 - 10) + (3 - 1) + (30 - 10) + 40 + 40 + 40);
}

#[test]
fn test_arena_plays_generations() {
    let mut arena = Arena::new(
        Machine::default(),
        catalog(),
        vec![1, 2, 2],
        10,
        GeneticStrategy::CullingElitism(1, 1),
    )
    .unwrap();
    arena.play();
    assert_eq!(arena.scores(), &vec![60, 10, 10]);
    // ranked [2, 2, 1]: the worst leaves, the last takes its slot, the best is added
    assert_eq!(arena.players(), &vec![1, 2, 1]);
    arena.play_for_rounds(2);
    assert_eq!(arena.players(), &vec![1, 1, 1]);
    assert_eq!(arena.scores(), &vec![0, 0, 0]);
}

#[test]
fn test_arena_pairs_everybody_once_with_everybody_else() {
    for size in 0..9usize {
        let mut arena = Arena::new(
            Machine::default(),
            vec![AllCooperate::default()],
            vec![0; size],
            1,
            GeneticStrategy::Keep,
        )
        .unwrap();
        arena.play();
        // one round of mutual cooperation pays 2 to each side of a pairing
        let expected = if size == 0 { 0 } else { 2 * (size as isize - 1) };
        assert_eq!(arena.scores(), &vec![expected; size]);
        let total: isize = arena.scores().iter().sum();
        assert_eq!(total, 4 * (size * size.saturating_sub(1) / 2) as isize);
    }
}

#[test]
fn test_arena_pairings_leave_the_prototypes_as_they_are() {
    // a grudger that kept a grudge from one pairing to the next would cheat on cooperators
    let mut arena = Arena::new(
        Machine::default(),
        vec![Player::Grudger(Grudger::default()), Player::AllCheat(AllCheat::default())],
        vec![0, 1, 0],
        10,
        GeneticStrategy::Keep,
    )
    .unwrap();
    arena.play();
    // grudger against cheater: -1 and 3; grudger against grudger: 20 each
    assert_eq!(arena.scores(), &vec![19, 6, 19]);
    assert_eq!(arena.players(), &vec![1, 0, 0]);
    arena.play();
    assert_eq!(arena.scores(), &vec![6, 19, 19]);
    assert_eq!(arena.players(), &vec![1, 0, 0]);
}
