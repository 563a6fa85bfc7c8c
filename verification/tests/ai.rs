use hwarang::ai::{AggroRule, Intent, Situation, Stance, Threat};
use hwarang::position::Position;

const STRIKE: u32 = 200;

fn rule() -> AggroRule {
    AggroRule::standard(STRIKE)
}

fn at_post(nearest: Option<Threat>, stance: Stance) -> Situation {
    Situation {
        creature: Position::origin(),
        anchor: Position::origin(),
        nearest,
        stance,
    }
}

fn threat_at(x: i32) -> Threat {
    Threat {
        position: Position::new(x, 0),
        alive: true,
    }
}

#[test]
fn une_laisse_plus_courte_que_la_detection_est_refusee() {
    assert_eq!(AggroRule::new(1_500, 1_000, STRIKE), None);
    assert!(AggroRule::new(1_000, 1_000, STRIKE).is_some());
}

#[test]
fn sans_cible_la_creature_reste_a_son_poste() {
    assert_eq!(
        rule().decide(at_post(None, Stance::Idle)),
        (Intent::Hold, Stance::Idle)
    );
}

#[test]
fn une_cible_lointaine_passe_inapercue() {
    let far = threat_at(i32::try_from(AggroRule::DEFAULT_AGGRO_CM).unwrap_or(0) + 1);
    assert_eq!(
        rule().decide(at_post(Some(far), Stance::Idle)),
        (Intent::Hold, Stance::Idle)
    );
}

#[test]
fn une_cible_dans_le_rayon_declenche_la_poursuite() {
    let (intent, stance) = rule().decide(at_post(Some(threat_at(800)), Stance::Idle));
    assert_eq!(intent, Intent::Approach(Position::new(800, 0)));
    assert_eq!(stance, Stance::Engaged);
}

#[test]
fn une_cible_au_contact_est_frappee() {
    assert_eq!(
        rule().decide(at_post(Some(threat_at(100)), Stance::Idle)),
        (Intent::Strike, Stance::Engaged)
    );
}

#[test]
fn une_cible_morte_n_est_plus_poursuivie() {
    let dead = Some(Threat {
        position: Position::new(300, 0),
        alive: false,
    });
    let engaged = Situation {
        creature: Position::new(500, 0),
        ..at_post(dead, Stance::Engaged)
    };
    assert_eq!(
        rule().decide(engaged),
        (Intent::ReturnTo(Position::origin()), Stance::Returning)
    );
}

#[test]
fn une_creature_engagee_poursuit_au_dela_de_son_rayon_de_detection() {
    let beyond = threat_at(i32::try_from(AggroRule::DEFAULT_AGGRO_CM).unwrap_or(0) + 500);
    let (intent, stance) = rule().decide(at_post(Some(beyond), Stance::Engaged));
    assert!(matches!(intent, Intent::Approach(_)));
    assert_eq!(stance, Stance::Engaged);
}

#[test]
fn la_laisse_se_mesure_depuis_le_poste_et_non_depuis_la_cible() {
    let dragged = Situation {
        creature: Position::new(
            i32::try_from(AggroRule::DEFAULT_LEASH_CM).unwrap_or(0) + 1,
            0,
        ),
        anchor: Position::origin(),
        nearest: Some(Threat {
            position: Position::new(
                i32::try_from(AggroRule::DEFAULT_LEASH_CM).unwrap_or(0) + 50,
                0,
            ),
            alive: true,
        }),
        stance: Stance::Engaged,
    };

    assert_eq!(
        rule().decide(dragged),
        (Intent::ReturnTo(Position::origin()), Stance::Returning)
    );
}

#[test]
fn la_laisse_est_inclusive_a_sa_borne() {
    let at_limit = Situation {
        creature: Position::new(i32::try_from(AggroRule::DEFAULT_LEASH_CM).unwrap_or(0), 0),
        anchor: Position::origin(),
        nearest: None,
        stance: Stance::Engaged,
    };
    assert_eq!(
        rule().decide(at_limit),
        (Intent::ReturnTo(Position::origin()), Stance::Returning)
    );
}

#[test]
fn une_fois_rentree_la_creature_se_remet_en_attente() {
    let home = Situation {
        creature: Position::origin(),
        anchor: Position::origin(),
        nearest: None,
        stance: Stance::Returning,
    };
    assert_eq!(rule().decide(home), (Intent::Hold, Stance::Idle));
}

#[test]
fn une_creature_qui_rentre_peut_etre_reengagee_a_portee_de_detection() {
    let intercepted = Situation {
        creature: Position::new(500, 0),
        anchor: Position::origin(),
        nearest: Some(threat_at(1_200)),
        stance: Stance::Returning,
    };
    assert_eq!(
        rule().decide(intercepted),
        (Intent::Approach(Position::new(1_200, 0)), Stance::Engaged)
    );
}

#[test]
fn la_decision_est_stable_pour_une_situation_identique() {
    let situation = at_post(Some(threat_at(900)), Stance::Idle);
    assert_eq!(rule().decide(situation), rule().decide(situation));
}

// Further cases.

#[test]
fn la_laisse_ramene_meme_une_creature_au_contact_de_sa_cible() {
    // Leash law on concrete values: beyond the leash, even a target in reach
    // is given up.
    let rule = AggroRule::new(100, 100, 200).unwrap();
    let situation = Situation {
        creature: Position::new(101, 0),
        anchor: Position::origin(),
        nearest: Some(threat_at(101)),
        stance: Stance::Engaged,
    };
    assert_eq!(rule.decide(situation), (Intent::ReturnTo(Position::origin()), Stance::Returning));
    assert_eq!(rule.aggro_radius_cm(), 100);
    assert_eq!(Stance::default(), Stance::Idle);
}
