use evolution_of_trust::players::{
    AllCheat, AllCooperate, CopyCat, Detective, Grudger, KindCopyCat, Player, Random, Simpleton,
};
use evolution_of_trust::traits::PlayerTrait;

fn all_types<P: PlayerTrait>(
    player: &mut P,
    initial: bool,
    enemy_consents_to_reaction: &[((bool, bool), bool)],
) {
    assert_eq!(player.cooperation_consent(), initial); // first must be true

    for &(consents, reaction) in enemy_consents_to_reaction {
        player.memorize_last_game(consents, (1, 1));
        assert_eq!(player.cooperation_consent(), reaction);
    }
}

#[test]
fn test_copycat() {
    all_types(
        &mut CopyCat::default(),
        true,
        &[
            ((true, true), true),
            ((true, false), false),
            ((false, false), false),
            ((false, true), true),
        ],
    );
}

#[test]
fn test_all_cooperate() {
    all_types(
        &mut AllCooperate::default(),
        true,
        &[
            ((true, true), true),
            ((true, false), true),
            ((false, false), true),
            ((false, true), true),
        ],
    );
}

#[test]
fn test_all_cheat() {
    all_types(
        &mut AllCheat::default(),
        false,
        &[
            ((true, true), false),
            ((true, false), false),
            ((false, false), false),
            ((false, true), false),
        ],
    );
}

#[test]
fn test_grudger() {
    all_types(
        &mut Grudger::default(),
        true,
        &[
            ((true, true), true),
            ((true, false), false),
            ((false, true), false),
            ((true, true), false),
        ],
    );

    all_types(
        &mut Grudger::default(),
        true,
        &[
            ((true, true), true),
            ((true, true), true),
            ((false, true), true),
            ((true, true), true),
            ((true, false), false),
            ((true, true), false),
            ((true, true), false),
        ],
    );
}

#[test]
fn test_detective() {
    all_types(
        &mut Detective::default(),
        true,
        &[
            // default initial strat
            ((false, true), false),
            ((false, false), true),
            ((false, true), true),
            // copycat, coz been cheated
            ((false, false), false),
            ((false, false), false),
            ((false, false), false),
            ((false, true), true),
            ((false, true), true),
            ((false, false), false),
            ((true, false), false),
            ((true, true), true),
        ],
    );

    all_types(
        &mut Detective::default(),
        true,
        &[
            // default initial strat
            ((false, true), false),
            ((false, true), true),
            ((false, true), true),
            // cheater, coz not been cheated
            ((false, true), false),
            ((false, true), false),
            ((false, false), false),
            ((false, true), false),
            ((false, true), false),
            ((false, false), false),
            ((true, false), false),
            ((true, true), false),
        ],
    );
}

#[test]
fn test_kindcopycat() {
    all_types(
        &mut KindCopyCat::default(),
        true,
        &[
            ((false, true), true),
            ((true, true), true),
            ((true, false), true),
            ((false, true), true),
            ((true, false), true),
            ((false, true), true),
            ((true, false), true),
            ((false, false), false),
            ((false, true), true),
            ((false, false), true),
            ((true, false), false),
            ((true, false), false),
            ((false, true), true),
        ],
    );
}

#[test]
fn test_simpleton() {
    all_types(
        &mut Simpleton::default(),
        true,
        &[
            ((true, true), true),
            ((true, true), true),
            ((true, false), false),
            ((false, true), false),
            ((false, false), true),
            ((true, false), false),
            ((false, true), false),
        ],
    );
}

#[test]
fn test_forget_games_restores_the_first_answer() {
    let mut copycat = CopyCat::default();
    copycat.memorize_last_game((true, false), (-1, 3));
    assert_eq!(copycat.cooperation_consent(), false);
    copycat.forget_games();
    assert_eq!(copycat.cooperation_consent(), true);

    let mut grudger = Grudger::default();
    grudger.memorize_last_game((true, false), (-1, 3));
    grudger.memorize_last_game((false, true), (3, -1));
    assert_eq!(grudger.cooperation_consent(), false);
    grudger.forget_games();
    assert_eq!(grudger.cooperation_consent(), true);

    let mut simpleton = Simpleton::default();
    simpleton.memorize_last_game((true, false), (-1, 3));
    assert_eq!(simpleton.cooperation_consent(), false);
    simpleton.forget_games();
    assert_eq!(simpleton.cooperation_consent(), true);

    let mut kind = KindCopyCat::new(0);
    kind.memorize_last_game((true, false), (-1, 3));
    assert_eq!(kind.cooperation_consent(), false);
    kind.forget_games();
    assert_eq!(kind.cooperation_consent(), true);

    let mut detective = Detective::new(vec![false, true]);
    assert_eq!(detective.cooperation_consent(), false);
    detective.memorize_last_game((false, false), (0, 0));
    assert_eq!(detective.cooperation_consent(), true);
    detective.memorize_last_game((true, false), (-1, 3));
    assert_eq!(detective.cooperation_consent(), false);
    detective.forget_games();
    assert_eq!(detective.cooperation_consent(), false);
    detective.memorize_last_game((false, true), (3, -1));
    assert_eq!(detective.cooperation_consent(), true);
}

#[test]
fn test_grudger_never_forgives() {
    let mut grudger = Grudger::default();
    grudger.memorize_last_game((true, false), (-1, 3));
    for _ in 0..100 {
        grudger.memorize_last_game((false, true), (3, -1));
        assert_eq!(grudger.cooperation_consent(), false);
    }
}

#[test]
fn test_kindcopycat_tolerance() {
    for tolerance in 0..5usize {
        let mut kind = KindCopyCat::new(tolerance);
        assert_eq!(kind.cooperation_consent(), true);
        for seen in 1..=tolerance {
            kind.memorize_last_game((true, false), (-1, 3));
            assert_eq!(kind.cooperation_consent(), true, "after {} cheats", seen);
        }
        kind.memorize_last_game((true, false), (-1, 3));
        assert_eq!(kind.cooperation_consent(), false);
        kind.memorize_last_game((false, false), (0, 0));
        assert_eq!(kind.cooperation_consent(), false);
        kind.memorize_last_game((false, true), (3, -1));
        assert_eq!(kind.cooperation_consent(), true);
    }
}

#[test]
fn test_kindcopycat_with_full_tolerance_never_retaliates() {
    let mut kind = KindCopyCat::new(usize::MAX);
    for _ in 0..1000 {
        kind.memorize_last_game((true, false), (-1, 3));
        assert_eq!(kind.cooperation_consent(), true);
    }
}

#[test]
fn test_detective_cheated_in_the_last_round_of_the_script() {
    // the opponent cheats in the round of the last scripted move only: it is noted
    let mut detective = Detective::default();
    assert_eq!(detective.cooperation_consent(), true);
    detective.memorize_last_game((true, true), (2, 2));
    assert_eq!(detective.cooperation_consent(), false);
    detective.memorize_last_game((false, true), (3, -1));
    assert_eq!(detective.cooperation_consent(), true);
    detective.memorize_last_game((true, true), (2, 2));
    assert_eq!(detective.cooperation_consent(), true);
    detective.memorize_last_game((true, false), (-1, 3));
    assert_eq!(detective.cooperation_consent(), false);
    detective.memorize_last_game((false, true), (3, -1));
    assert_eq!(detective.cooperation_consent(), true);
    detective.memorize_last_game((true, false), (-1, 3));
    assert_eq!(detective.cooperation_consent(), false);
}

#[test]
fn test_detective_cheated_after_the_script_only() {
    // a cheat that comes once the script is over makes no copycat of the detective
    let mut detective = Detective::default();
    for _ in 0..4 {
        detective.memorize_last_game((true, true), (1, 1));
    }
    assert_eq!(detective.cooperation_consent(), false);
    detective.memorize_last_game((false, false), (0, 0));
    assert_eq!(detective.cooperation_consent(), false);
    detective.memorize_last_game((false, true), (3, -1));
    assert_eq!(detective.cooperation_consent(), false);
}

#[test]
fn test_detective_with_a_script_of_one_move() {
    let mut detective = Detective::new(vec![false]);
    assert_eq!(detective.cooperation_consent(), false);
    detective.memorize_last_game((false, false), (0, 0));
    assert_eq!(detective.cooperation_consent(), false);
    detective.memorize_last_game((false, true), (3, -1));
    assert_eq!(detective.cooperation_consent(), true);

    let mut detective = Detective::new(vec![false]);
    detective.memorize_last_game((false, true), (3, -1));
    assert_eq!(detective.cooperation_consent(), false);
    detective.memorize_last_game((false, false), (0, 0));
    assert_eq!(detective.cooperation_consent(), false);
    detective.memorize_last_game((false, true), (3, -1));
    assert_eq!(detective.cooperation_consent(), false);
}

#[test]
fn test_detective_with_an_empty_script() {
    let mut detective = Detective::new(vec![]);
    assert_eq!(detective.cooperation_consent(), true);
    detective.memorize_last_game((true, true), (2, 2));
    assert_eq!(detective.cooperation_consent(), false);
    detective.memorize_last_game((false, false), (0, 0));
    assert_eq!(detective.cooperation_consent(), false);
    detective.forget_games();
    assert_eq!(detective.cooperation_consent(), true);
}

#[test]
fn test_clones_are_independent() {
    let original = Detective::default();
    let mut copy = original.clone();
    copy.memorize_last_game((true, false), (-1, 3));
    assert_eq!(copy.cooperation_consent(), false);
    assert_eq!(original.cooperation_consent(), true);

    let original = Player::CopyCat(CopyCat::default());
    let mut copy = original.clone();
    copy.memorize_last_game((true, false), (-1, 3));
    assert_eq!(copy.cooperation_consent(), false);
    assert_eq!(original.cooperation_consent(), true);
}

#[test]
fn test_player_behaves_as_the_player_it_holds() {
    all_types(
        &mut Player::CopyCat(CopyCat::default()),
        true,
        &[((true, true), true), ((true, false), false), ((false, true), true)],
    );
    all_types(
        &mut Player::AllCooperate(AllCooperate::default()),
        true,
        &[((true, false), true)],
    );
    all_types(&mut Player::AllCheat(AllCheat::default()), false, &[((true, true), false)]);
    all_types(
        &mut Player::Grudger(Grudger::default()),
        true,
        &[((true, false), false), ((false, true), false)],
    );
    all_types(
        &mut Player::Detective(Detective::default()),
        true,
        &[((true, true), false), ((false, true), true), ((true, true), true)],
    );
    all_types(
        &mut Player::KindCopyCat(KindCopyCat::default()),
        true,
        &[((true, false), true), ((true, false), false), ((false, true), true)],
    );
    all_types(
        &mut Player::Simpleton(Simpleton::default()),
        true,
        &[((true, false), false), ((false, false), true)],
    );
}

#[test]
fn test_random_gives_both_answers() {
    let random = Random::default();
    let mut consents = 0;
    let mut cheats = 0;
    for _ in 0..2000 {
        if random.cooperation_consent() {
            consents += 1;
        } else {
            cheats += 1;
        }
    }
    assert!(consents > 0);
    assert!(cheats > 0);

    let mut held = Player::Random(Random::default());
    held.memorize_last_game((true, false), (-1, 3));
    held.forget_games();
    let answer = held.cooperation_consent();
    assert!(answer || !answer);
}

#[test]
fn test_boxed_player_plays_as_the_player_in_the_box() {
    all_types(
        &mut Box::new(CopyCat::default()),
        true,
        &[((true, true), true), ((true, false), false), ((false, true), true)],
    );
    let mut boxed = Box::new(Grudger::default());
    boxed.memorize_last_game((true, false), (-1, 3));
    let copy = boxed.clone();
    boxed.forget_games();
    assert_eq!(boxed.cooperation_consent(), true);
    assert_eq!(copy.cooperation_consent(), false);
}
