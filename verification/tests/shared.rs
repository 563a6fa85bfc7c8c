use hwarang::experience::{Experience, ProgressionCurve};
use hwarang::level::{Level, MAX_LEVEL};
use hwarang::vitals::Vitals;

#[test]
fn le_cout_croit_strictement_sur_toute_la_plage() {
    let curve = ProgressionCurve::standard();
    let mut previous = Experience::zero();
    for value in 1..=MAX_LEVEL {
        let cost = curve.required_to_leave(Level::new(value).unwrap());
        assert!(
            cost > previous,
            "palier {value} n'est pas plus couteux que le precedent"
        );
        previous = cost;
    }
}

#[test]
fn refuse_une_courbe_plate() {
    assert_eq!(ProgressionCurve::new(0), None);
}

#[test]
fn sature_au_lieu_de_reboucler() {
    let curve = ProgressionCurve::new(u64::MAX).unwrap();
    assert_eq!(curve.required_to_leave(Level::last()).get(), u64::MAX);
}

#[test]
fn l_addition_sature() {
    let almost_full = Experience::new(u64::MAX - 1);
    assert_eq!(
        almost_full.saturating_add(Experience::new(100)).get(),
        u64::MAX
    );
}

#[test]
fn rejette_les_niveaux_hors_bornes() {
    assert_eq!(Level::new(0), None);
    assert_eq!(Level::new(MAX_LEVEL + 1), None);
}

#[test]
fn accepte_les_bornes_inclusives() {
    assert_eq!(Level::new(1).unwrap(), Level::first());
    assert_eq!(Level::new(MAX_LEVEL).unwrap(), Level::last());
}

#[test]
fn le_palier_terminal_n_a_pas_de_suivant() {
    assert_eq!(Level::last().next(), None);
    assert!(Level::last().is_max());
}

#[test]
fn progresse_d_un_palier() {
    assert_eq!(Level::first().next().unwrap().get(), 2);
}

#[test]
fn refuse_un_maximum_nul() {
    assert_eq!(Vitals::full(0), None);
}

#[test]
fn les_degats_ont_un_plancher_a_zero() {
    let vitals = Vitals::full(100).unwrap().damaged_by(500);
    assert_eq!(vitals.current(), 0);
    assert!(vitals.is_depleted());
}

#[test]
fn les_soins_ont_un_plafond_au_maximum() {
    let vitals = Vitals::full(100).unwrap().damaged_by(30).healed_by(500);
    assert_eq!(vitals.current(), 100);
}

#[test]
fn un_mort_ne_se_soigne_pas() {
    let dead = Vitals::full(100).unwrap().damaged_by(100);
    assert!(dead.healed_by(50).is_depleted());
}

#[test]
fn le_redimensionnement_conserve_la_proportion() {
    let half = Vitals::full(100).unwrap().damaged_by(50);
    let grown = half.with_max(200).unwrap();
    assert_eq!(grown.current(), 100);
    assert_eq!(grown.max(), 200);
}

#[test]
fn le_redimensionnement_ne_tue_pas_un_survivant() {
    let sliver = Vitals::full(1_000_000).unwrap().damaged_by(999_999);
    let shrunk = sliver.with_max(10).unwrap();
    assert!(!shrunk.is_depleted());
}

// Further cases.

#[test]
fn la_courbe_de_reference_donne_les_seuils_attendus() {
    let curve = ProgressionCurve::standard();
    // 100 * 1 * 1 * 11 / 10 and 100 * 12 * 12 * 22 / 10.
    assert_eq!(curve.required_to_leave(Level::first()).get(), 110);
    assert_eq!(curve.required_to_leave(Level::new(12).unwrap()).get(), 31_680);
    assert_eq!(ProgressionCurve::default(), ProgressionCurve::standard());
}

#[test]
fn la_soustraction_a_un_plancher() {
    assert_eq!(Experience::new(5).saturating_sub(Experience::new(9)).get(), 0);
    assert_eq!(Experience::new(9).saturating_sub(Experience::new(5)).get(), 4);
}

#[test]
fn un_plafond_nul_est_refuse_au_redimensionnement() {
    assert_eq!(Vitals::full(10).unwrap().with_max(0), None);
}

#[test]
fn le_redimensionnement_arrondit_vers_le_bas() {
    // 1 * 3 / 2 = 1.
    let one = Vitals::full(2).unwrap().damaged_by(1);
    assert_eq!(one.with_max(3).unwrap().current(), 1);
    // 2 * 3 / 5 = 1; 3 * 3 / 5 = 1; 4 * 3 / 5 = 2.
    let four = Vitals::full(5).unwrap().damaged_by(1);
    assert_eq!(four.with_max(3).unwrap().current(), 2);
}
