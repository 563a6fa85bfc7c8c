use hwarang::character::{Attributes, Character, CharacterId, ProgressionOutcome};
use hwarang::experience::{Experience, ProgressionCurve};
use hwarang::level::Level;
use hwarang::regeneration::RegenerationRule;

fn hero() -> Character {
    Character::create(
        CharacterId::new(1),
        Attributes {
            vitality: 10,
            ..Attributes::default()
        },
        ProgressionCurve::standard(),
    )
}

#[test]
fn un_nouveau_personnage_demarre_au_premier_palier_en_pleine_sante() {
    let character = hero();
    assert_eq!(character.level(), Level::first());
    assert_eq!(character.experience(), Experience::zero());
    assert_eq!(character.vitals().current(), character.vitals().max());
    assert!(character.is_alive());
}

#[test]
fn un_gain_insuffisant_accumule_sans_changer_de_palier() {
    let (character, outcome) = hero().gain_experience(Experience::new(10));
    assert_eq!(outcome, ProgressionOutcome::Accumulated);
    assert_eq!(character.level(), Level::first());
    assert_eq!(character.experience().get(), 10);
}

#[test]
fn le_franchissement_conserve_le_reliquat() {
    let curve = ProgressionCurve::standard();
    let needed = curve.required_to_leave(Level::first()).get();

    let (character, outcome) = hero().gain_experience(Experience::new(needed + 7));
    assert_eq!(
        outcome,
        ProgressionOutcome::LeveledUp {
            from: Level::first(),
            to: Level::new(2).unwrap(),
        }
    );
    assert_eq!(character.experience().get(), 7);
}

#[test]
fn un_gain_massif_franchit_plusieurs_paliers_en_une_passe() {
    let (character, outcome) = hero().gain_experience(Experience::new(1_000_000));
    assert!(character.level().get() > 2, "un seul palier a ete franchi");
    assert!(matches!(outcome, ProgressionOutcome::LeveledUp { .. }));
}

#[test]
fn l_experience_reste_toujours_sous_le_seuil_de_son_palier() {
    let curve = ProgressionCurve::standard();
    for gain in [1, 1_000, 100_000, u64::MAX / 2, u64::MAX] {
        let (character, _) = hero().gain_experience(Experience::new(gain));
        assert!(
            character.experience() < curve.required_to_leave(character.level()),
            "gain {gain} : reliquat {:?} au-dela du seuil du palier {}",
            character.experience(),
            character.level().get()
        );
    }
}

#[test]
fn le_palier_maximum_ignore_les_gains() {
    let mut character = hero().gain_experience(Experience::new(u64::MAX)).0;
    assert_eq!(character.level(), Level::last());

    let outcome;
    (character, outcome) = character.gain_experience(Experience::new(1_000));
    assert_eq!(outcome, ProgressionOutcome::AtMaxLevel);
    assert_eq!(character.level(), Level::last());
}

#[test]
fn monter_de_palier_ne_soigne_pas() {
    let wounded = hero().take_damage(100);
    let ratio_before = f64::from(wounded.vitals().current()) / f64::from(wounded.vitals().max());

    let (grown, _) = wounded.gain_experience(Experience::new(100_000));
    let ratio_after = f64::from(grown.vitals().current()) / f64::from(grown.vitals().max());

    assert!(grown.level() > wounded.level());
    assert!((ratio_before - ratio_after).abs() < 0.01);
    assert!(grown.vitals().max() > wounded.vitals().max());
}

#[test]
fn les_degats_letaux_marquent_le_personnage_hors_combat() {
    let character = hero();
    let dead = character.take_damage(character.vitals().max());
    assert!(!dead.is_alive());
}

#[test]
fn reapparaitre_restaure_les_jauges_sans_toucher_a_la_progression() {
    let (grown, _) = hero().gain_experience(Experience::new(100_000));
    let dead = grown.take_damage(u32::MAX);
    assert!(!dead.is_alive());

    let revived = dead.respawn();
    assert!(revived.is_alive());
    assert_eq!(revived.vitals().current(), revived.vitals().max());
    assert_eq!(revived.level(), grown.level());
    assert_eq!(revived.experience(), grown.experience());
}

#[test]
fn la_vitalite_augmente_les_points_de_vie() {
    let frail = Character::create(
        CharacterId::new(2),
        Attributes::default(),
        ProgressionCurve::standard(),
    );
    assert!(hero().vitals().max() > frail.vitals().max());
}

#[test]
fn rien_ne_se_regenere_pendant_le_combat() {
    let rule = RegenerationRule::standard();
    assert_eq!(rule.amount(0, 1_000), 0);
    assert_eq!(
        rule.amount(RegenerationRule::DEFAULT_IDLE_DELAY_MS - 1, 1_000),
        0
    );
}

#[test]
fn le_calme_atteint_declenche_la_recuperation() {
    let rule = RegenerationRule::standard();
    assert_eq!(
        rule.amount(RegenerationRule::DEFAULT_IDLE_DELAY_MS, 1_000),
        RegenerationRule::DEFAULT_PER_SECOND
    );
}

#[test]
fn la_quantite_suit_le_temps_ecoule() {
    let rule = RegenerationRule::new(20, 0);
    assert_eq!(rule.amount(0, 1_000), 20);
    assert_eq!(rule.amount(0, 500), 10);
    assert_eq!(rule.amount(0, 5_000), 100);
}

#[test]
fn un_pas_trop_court_ne_rend_rien_plutot_que_d_arrondir_en_haut() {
    let rule = RegenerationRule::new(20, 0);
    assert_eq!(rule.amount(0, 200), 4);
    assert_eq!(rule.amount(0, 10), 0);
}

#[test]
fn ne_deborde_pas_sur_des_valeurs_extremes() {
    let rule = RegenerationRule::new(u32::MAX, 0);
    assert_eq!(rule.amount(u64::MAX, u64::MAX), u32::MAX);
}

#[test]
fn une_regeneration_nulle_ne_rend_jamais_rien() {
    let rule = RegenerationRule::new(0, 0);
    assert_eq!(rule.amount(u64::MAX, 10_000), 0);
}

// Further cases.

#[test]
fn les_points_de_vie_suivent_la_formule() {
    let attributes = Attributes {
        vitality: 10,
        ..Attributes::default()
    };
    // 100 + 10 * 30 + (12 - 1) * 40.
    assert_eq!(attributes.max_health(Level::new(12).unwrap()), 840);
    assert_eq!(hero().vitals().max(), 400);
}

#[test]
fn franchir_un_palier_recalcule_le_plafond() {
    // 110 points to leave level 1: level 2 reached, ceiling 400 + 40.
    let (grown, _) = hero().gain_experience(Experience::new(110));
    assert_eq!(grown.level().get(), 2);
    assert_eq!(grown.experience().get(), 0);
    assert_eq!(grown.vitals().max(), 440);
    assert_eq!(grown.vitals().current(), 440);
}

#[test]
fn la_restauration_refuse_un_etat_impossible() {
    let curve = ProgressionCurve::standard();
    let level = Level::new(2).unwrap();
    let attributes = Attributes::default();
    // Ceiling at level 2 without vitality: 140.
    assert!(Character::restore(CharacterId::new(1), level, Experience::zero(), attributes, 141, curve).is_none());
    // Threshold of level 2: 100 * 4 * 12 / 10 = 480.
    assert!(Character::restore(CharacterId::new(1), level, Experience::new(480), attributes, 10, curve).is_none());
    let restored =
        Character::restore(CharacterId::new(1), level, Experience::new(479), attributes, 10, curve).unwrap();
    assert_eq!(restored.vitals().current(), 10);
    assert_eq!(restored.vitals().max(), 140);
}

#[test]
fn la_regle_par_defaut_est_la_regle_standard() {
    assert_eq!(RegenerationRule::default(), RegenerationRule::standard());
}
