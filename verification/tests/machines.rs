use evolution_of_trust::genetics::GeneticStrategy;
use evolution_of_trust::machines::{perturbed, Machine, MachineRandomizer};
use evolution_of_trust::matches::{Arena, Match};
use evolution_of_trust::matrices::GameMatrix;
use evolution_of_trust::players::{AllCheat, AllCooperate, CopyCat};
use evolution_of_trust::traits::{MachineTrait, MatchTrait, NoiseTrait};

struct Swap;

impl NoiseTrait for Swap {
    fn perturb(&self, consents: (bool, bool)) -> (bool, bool) {
        (!consents.0, !consents.1)
    }
}

struct Silence;

impl NoiseTrait for Silence {
    fn perturb(&self, consents: (bool, bool)) -> (bool, bool) {
        consents
    }
}

#[test]
fn test_machine_new_starts_at_zero() {
    let matrix = GameMatrix { cc: (1, 2), cd: (3, 4), dc: (5, 6), dd: (7, 8) };
    let mut machine = Machine::new(matrix);
    assert_eq!(machine.scores, (0, 0));
    assert_eq!(machine.matrix.dc, (5, 6));
    assert_eq!(machine.play((false, true)), (5, 6));
    assert_eq!(machine.scores, (5, 6));
}

#[test]
fn test_machine_randomizer_scores_what_the_noise_leaves() {
    let mut machine = MachineRandomizer { base: Machine::default(), noise: Swap };
    assert_eq!(machine.play_off_record((true, true)), (0, 0));
    assert_eq!(machine.scores(), (0, 0));
    assert_eq!(machine.play((true, false)), (3, -1));
    assert_eq!(machine.play((false, false)), (2, 2));
    assert_eq!(machine.scores(), (5, 1));
    machine.record_scores((1, 1));
    assert_eq!(machine.scores(), (6, 2));
    machine.reset_scores();
    assert_eq!(machine.scores(), (0, 0));
}

#[test]
fn test_match_on_a_machine_randomizer() {
    // the players are told what they decided, and the rewards that were recorded
    let mut game = Match {
        machine: MachineRandomizer { base: Machine::default(), noise: Swap },
        players: (AllCooperate::default(), CopyCat::default()),
    };
    game.play_for_rounds(5);
    assert_eq!(game.machine.scores(), (0, 0));

    let mut game = Match {
        machine: MachineRandomizer { base: Machine::default(), noise: Silence },
        players: (AllCheat::default(), CopyCat::default()),
    };
    game.play_for_rounds(5);
    assert_eq!(game.machine.scores(), (3, -1));
}

#[test]
fn test_arena_on_a_machine_randomizer() {
    let mut arena = Arena::new(
        MachineRandomizer { base: Machine::default(), noise: Swap },
        vec![AllCooperate::default()],
        vec![0, 0, 0],
        4,
        GeneticStrategy::Keep,
    )
    .unwrap();
    arena.play();
    assert_eq!(arena.scores(), &vec![0, 0, 0]);
    assert_eq!(arena.players(), &vec![0, 0, 0]);
}

#[test]
fn test_perturbed_takes_the_chance_that_applies_to_each_side() {
    for a in [false, true] {
        for b in [false, true] {
            // a side that cooperates is falsified or kept; one that cheats is forgiven or not
            assert_eq!(perturbed((true, true), (a, b), (!a, !b)), (a, b));
            assert_eq!(perturbed((false, false), (!a, !b), (a, b)), (a, b));
            assert_eq!(perturbed((true, false), (a, !b), (!a, b)), (a, b));
            assert_eq!(perturbed((false, true), (!a, b), (a, !b)), (a, b));
        }
    }
}
