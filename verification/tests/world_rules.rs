use hwarang::grid::{CellCoord, Grid};
use hwarang::movement::{MoveVerdict, MovementRule, MovementSpeed};
use hwarang::position::Position;

#[test]
fn une_cellule_plus_petite_que_la_vue_est_refusee() {
    assert_eq!(Grid::new(1_000, 4_000), None);
    assert_eq!(Grid::new(0, 0), None);
    assert!(Grid::new(4_000, 4_000).is_some());
}

#[test]
fn l_origine_ne_cree_pas_de_cellule_double() {
    let grid = Grid::with_default_view();
    let size = i32::try_from(grid.cell_size_cm()).unwrap();

    assert_eq!(grid.cell_of(Position::new(0, 0)), CellCoord { cx: 0, cy: 0 });
    assert_eq!(grid.cell_of(Position::new(-1, -1)), CellCoord { cx: -1, cy: -1 });
    assert_eq!(grid.cell_of(Position::new(-size, -size)), CellCoord { cx: -1, cy: -1 });
    assert_eq!(grid.cell_of(Position::new(-size - 1, 0)), CellCoord { cx: -2, cy: 0 });
}

#[test]
fn le_voisinage_courant_compte_neuf_cellules_dont_la_sienne() {
    let grid = Grid::with_default_view();
    let cell = CellCoord { cx: 5, cy: -3 };
    let neighbours = grid.neighbourhood(cell);

    assert_eq!(neighbours.len(), 9);
    assert!(neighbours.contains(&cell));
}

#[test]
fn le_voisinage_est_tronque_aux_bords_du_plan() {
    let grid = Grid::with_default_view();
    let corner = CellCoord {
        cx: i32::MAX,
        cy: i32::MAX,
    };
    assert_eq!(grid.neighbourhood(corner).len(), 4);
}

#[test]
fn tout_ce_qui_est_visible_tient_dans_le_bloc_de_neuf() {
    const STEP: usize = 137;

    let grid = Grid::with_default_view();
    let radius = Grid::DEFAULT_VIEW_RADIUS_CM;
    let observer = Position::new(1_234, 5_678);
    let block = grid.neighbourhood(grid.cell_of(observer));

    let reach = i32::try_from(radius).unwrap();
    for dx in (-reach..=reach).step_by(STEP) {
        for dy in (-reach..=reach).step_by(STEP) {
            let other = Position::new(observer.x + dx, observer.y + dy);
            if observer.is_within(other, radius) {
                assert!(
                    block.contains(&grid.cell_of(other)),
                    "{other:?} est visible mais hors du bloc"
                );
            }
        }
    }
}

#[test]
fn le_franchissement_de_cellule_est_detecte() {
    let grid = Grid::with_default_view();
    let size = i32::try_from(grid.cell_size_cm()).unwrap();

    assert!(!grid.crosses_cell(Position::new(10, 10), Position::new(20, 20)));
    assert!(grid.crosses_cell(Position::new(size - 1, 0), Position::new(size, 0)));
}

#[test]
fn un_pas_compatible_avec_le_temps_ecoule_est_accepte() {
    let rule = MovementRule::walking();
    let verdict = rule.verify(Position::origin(), Position::new(300, 0), 1_000);
    assert_eq!(verdict, MoveVerdict::Accepted);
}

#[test]
fn un_saut_trop_long_est_refuse_avec_les_valeurs_constatees() {
    let rule = MovementRule::walking();
    let verdict = rule.verify(Position::origin(), Position::new(5_000, 0), 1_000);

    match verdict {
        MoveVerdict::TooFast {
            travelled_cm,
            allowed_cm,
        } => {
            assert_eq!(travelled_cm, 5_000);
            assert_eq!(allowed_cm, 350);
        }
        MoveVerdict::Accepted => panic!("un saut de 50 m en 1 s a ete accepte"),
    }
}

#[test]
fn la_marge_absorbe_la_gigue_reseau() {
    let rule = MovementRule::walking();
    assert_eq!(
        rule.verify(Position::origin(), Position::new(40, 0), 0),
        MoveVerdict::Accepted
    );
}

#[test]
fn la_marge_ne_finance_pas_la_teleportation() {
    let rule = MovementRule::walking();
    assert!(matches!(
        rule.verify(Position::origin(), Position::new(1_000, 0), 0),
        MoveVerdict::TooFast { .. }
    ));
}

#[test]
fn courir_autorise_plus_loin_que_marcher() {
    let step = Position::new(600, 0);
    assert!(matches!(
        MovementRule::walking().verify(Position::origin(), step, 1_000),
        MoveVerdict::TooFast { .. }
    ));
    assert_eq!(
        MovementRule::running().verify(Position::origin(), step, 1_000),
        MoveVerdict::Accepted
    );
}

#[test]
fn la_diagonale_n_offre_pas_de_raccourci() {
    let rule = MovementRule::walking();
    assert!(matches!(
        rule.verify(Position::origin(), Position::new(250, 250), 1_000),
        MoveVerdict::TooFast { .. }
    ));
}

#[test]
fn accumuler_de_petits_sauts_ne_paie_pas() {
    let rule = MovementRule::walking();
    let mut position = Position::origin();
    for _ in 0..10 {
        let attempt = Position::new(position.x + 80, 0);
        assert_eq!(rule.verify(position, attempt, 100), MoveVerdict::Accepted);
        position = attempt;
    }
    assert_eq!(position.x, 800);
}

#[test]
fn ne_deborde_pas_sur_un_temps_ecoule_aberrant() {
    let rule = MovementRule::new(MovementSpeed::new(u32::MAX), u32::MAX);
    assert_eq!(
        rule.verify(Position::origin(), Position::new(i32::MAX, 0), u64::MAX / 4),
        MoveVerdict::Accepted
    );
}

#[test]
fn la_distance_a_soi_meme_est_nulle() {
    let position = Position::new(1_234, -5_678);
    assert_eq!(position.distance_squared(position), 0);
}

#[test]
fn la_distance_est_symetrique() {
    let a = Position::new(100, 200);
    let b = Position::new(-300, 50);
    assert_eq!(a.distance_squared(b), b.distance_squared(a));
}

#[test]
fn le_triangle_3_4_5_donne_bien_25() {
    let a = Position::origin();
    let b = Position::new(3, 4);
    assert_eq!(a.distance_squared(b), 25);
}

#[test]
fn le_rayon_est_inclusif_a_sa_borne() {
    let a = Position::origin();
    assert!(a.is_within(Position::new(3, 4), 5));
    assert!(!a.is_within(Position::new(3, 5), 5));
}

#[test]
fn ne_deborde_pas_aux_extremites_du_plan() {
    let a = Position::new(i32::MIN, i32::MIN);
    let b = Position::new(i32::MAX, i32::MAX);
    assert!(a.distance_squared(b) > 0);
    assert!(!a.is_within(b, u32::MAX));
}

// Further cases.

#[test]
fn le_voisinage_suit_l_ordre_des_lignes() {
    let grid = Grid::with_default_view();
    let cells = grid.neighbourhood(CellCoord { cx: 0, cy: 0 });
    assert_eq!(cells[0], CellCoord { cx: -1, cy: -1 });
    assert_eq!(cells[4], CellCoord { cx: 0, cy: 0 });
    assert_eq!(cells[8], CellCoord { cx: 1, cy: 1 });
    let edge = grid.neighbourhood(CellCoord { cx: i32::MIN, cy: 0 });
    assert_eq!(edge.len(), 6);
    assert_eq!(edge[0], CellCoord { cx: i32::MIN, cy: -1 });
}

#[test]
fn la_tolerance_sature_au_lieu_de_reboucler() {
    let rule = MovementRule::new(MovementSpeed::new(u32::MAX), u32::MAX);
    assert_eq!(rule.allowance_cm(u64::MAX), u64::MAX / 1000 + u64::from(u32::MAX));
    assert_eq!(rule.allowance_cm(0), u64::from(u32::MAX));
    assert_eq!(MovementRule::walking().allowance_cm(2_000), 650);
    assert_eq!(MovementRule::running().speed(), MovementSpeed::new(700));
    assert_eq!(MovementSpeed::walk().cm_per_second(), 300);
    assert_eq!(MovementSpeed::run().cm_per_second(), 700);
}

#[test]
fn une_grille_valide_garde_sa_taille_de_cellule() {
    assert_eq!(Grid::new(5_000, 4_000).unwrap().cell_size_cm(), 5_000);
    assert_eq!(Grid::new(5_000, 4_000).unwrap().cell_of(Position::new(-5_001, 4_999)), CellCoord { cx: -2, cy: 0 });
}
