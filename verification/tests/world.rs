use std::collections::HashMap;

use hwarang::position::Position;
use hwarang::world::{
    AttackRefusal, Delivery, EntityId, SPAWN_COLUMNS, VIEW_RADIUS_CM, World, WorldEvent, spawn_position,
};

/// The connections' mailboxes: what each entity has been told, in order.
#[derive(Default)]
struct Post {
    boxes: HashMap<EntityId, Vec<WorldEvent>>,
}

impl Post {
    fn deliver(&mut self, deliveries: Vec<Delivery>) {
        for delivery in deliveries {
            self.boxes.entry(delivery.recipient).or_default().push(delivery.event);
        }
    }

    fn drain(&mut self, id: EntityId) -> Vec<WorldEvent> {
        self.boxes.remove(&id).unwrap_or_default()
    }
}

fn join(world: &mut World, post: &mut Post, id: EntityId) {
    let (_, deliveries) = world.enter(id);
    post.deliver(deliveries);
}

/// Moves without a speed constraint, to isolate visibility.
fn teleport(world: &mut World, post: &mut Post, id: EntityId, x: i32, y: i32) {
    post.deliver(world.request_move(id, x, y, u64::MAX / 4));
}

fn attack(world: &mut World, post: &mut Post, attacker: EntityId, target: EntityId, elapsed_ms: u64) {
    post.deliver(world.request_attack(attacker, target, elapsed_ms));
}

#[test]
fn entrer_dans_le_monde_annonce_sa_propre_position() {
    let mut world = World::new();
    let mut post = Post::default();
    join(&mut world, &mut post, 1);

    assert!(matches!(
        post.drain(1).first(),
        Some(WorldEvent::WorldEntered { entity_id: 1, .. })
    ));
    assert_eq!(world.population(), 1);
}

#[test]
fn tous_les_points_d_apparition_sont_mutuellement_visibles() {
    let slots = SPAWN_COLUMNS * SPAWN_COLUMNS;
    for a in 0..slots {
        for b in 0..slots {
            let (first, second) = (
                spawn_position(u64::try_from(a).unwrap_or(0)),
                spawn_position(u64::try_from(b).unwrap_or(0)),
            );
            assert!(
                first.is_within(second, VIEW_RADIUS_CM),
                "les emplacements {a} et {b} ne se voient pas"
            );
        }
    }
}

#[test]
fn deux_entites_proches_se_decouvrent_mutuellement() {
    let mut world = World::new();
    let mut post = Post::default();
    join(&mut world, &mut post, 1);
    join(&mut world, &mut post, 2);

    assert!(post
        .drain(1)
        .iter()
        .any(|m| matches!(m, WorldEvent::EntityAppeared { entity_id: 2, .. })));
    assert!(post
        .drain(2)
        .iter()
        .any(|m| matches!(m, WorldEvent::EntityAppeared { entity_id: 1, .. })));
}

#[test]
fn une_entite_hors_de_portee_reste_invisible() {
    let mut world = World::new();
    let mut post = Post::default();
    join(&mut world, &mut post, 1);
    join(&mut world, &mut post, 2);
    post.drain(1);

    teleport(&mut world, &mut post, 2, 500_000, 500_000);

    assert!(post
        .drain(1)
        .iter()
        .any(|m| matches!(m, WorldEvent::EntityVanished { entity_id: 2 })));
}

#[test]
fn s_eloigner_puis_revenir_redeclenche_l_apparition() {
    let mut world = World::new();
    let mut post = Post::default();
    join(&mut world, &mut post, 1);
    join(&mut world, &mut post, 2);

    teleport(&mut world, &mut post, 2, 500_000, 500_000);
    post.drain(1);
    teleport(&mut world, &mut post, 2, 0, 0);

    assert!(
        post.drain(1)
            .iter()
            .any(|m| matches!(m, WorldEvent::EntityAppeared { entity_id: 2, .. })),
        "le retour dans la vue n'a pas ete annonce"
    );
}

#[test]
fn un_deplacement_visible_est_diffuse_aux_voisins() {
    let mut world = World::new();
    let mut post = Post::default();
    join(&mut world, &mut post, 1);
    join(&mut world, &mut post, 2);
    post.drain(1);

    teleport(&mut world, &mut post, 2, 100, 100);

    assert!(post.drain(1).iter().any(|m| matches!(
        m,
        WorldEvent::EntityMoved {
            entity_id: 2,
            x: 100,
            y: 100
        }
    )));
}

#[test]
fn un_deplacement_trop_rapide_est_refuse_et_la_position_reaffirmee() {
    let mut world = World::new();
    let mut post = Post::default();
    join(&mut world, &mut post, 1);
    let spawn = spawn_position(1);
    post.drain(1);

    post.deliver(world.request_move(1, spawn.x + 1_000_000, spawn.y, 100));

    assert_eq!(
        post.drain(1),
        vec![WorldEvent::MoveRejected {
            x: spawn.x,
            y: spawn.y
        }]
    );
}

#[test]
fn un_refus_ne_deplace_pas_l_entite() {
    let mut world = World::new();
    let mut post = Post::default();
    join(&mut world, &mut post, 1);
    join(&mut world, &mut post, 2);
    post.drain(1);
    post.drain(2);

    post.deliver(world.request_move(2, 999_999, 999_999, 10));

    assert!(post.drain(1).is_empty());
}

#[test]
fn quitter_previent_ceux_qui_percevaient_l_entite() {
    let mut world = World::new();
    let mut post = Post::default();
    join(&mut world, &mut post, 1);
    join(&mut world, &mut post, 2);
    post.drain(1);

    post.deliver(world.leave(2));

    assert_eq!(post.drain(1), vec![WorldEvent::EntityVanished { entity_id: 2 }]);
    assert_eq!(world.population(), 1);
}

#[test]
fn quitter_deux_fois_est_sans_effet() {
    let mut world = World::new();
    let mut post = Post::default();
    join(&mut world, &mut post, 1);
    post.deliver(world.leave(1));
    assert!(world.leave(1).is_empty());
    assert_eq!(world.population(), 0);
}

#[test]
fn les_cellules_vides_ne_s_accumulent_pas() {
    let mut world = World::new();
    let mut post = Post::default();
    join(&mut world, &mut post, 1);

    for step in 1..20 {
        teleport(&mut world, &mut post, 1, step * 100_000, 0);
    }

    assert_eq!(world.indexed_cells(), 1, "des cellules vides sont restees indexees");
}

#[test]
fn deplacer_une_entite_absente_est_sans_effet() {
    let mut world = World::new();
    assert!(world.request_move(404, 10, 10, 1_000).is_empty());
    assert_eq!(world.population(), 0);
}

// --- Combat ---

/// Cadence largely satisfied, to isolate what is tested.
const AT_EASE: u64 = 60_000;

fn refusal(messages: &[WorldEvent]) -> Option<AttackRefusal> {
    messages.iter().find_map(|m| match m {
        WorldEvent::AttackRefused { reason } => Some(*reason),
        _ => None,
    })
}

fn health_of(world: &World, id: EntityId) -> u32 {
    world.character_of(id).unwrap().vitals().current()
}

fn is_alive(world: &World, id: EntityId) -> bool {
    world.character_of(id).unwrap().is_alive()
}

/// Two fighters in contact, mailboxes empty.
fn duel(world: &mut World, post: &mut Post) {
    join(world, post, 1);
    join(world, post, 2);
    teleport(world, post, 2, spawn_position(1).x + 100, spawn_position(1).y);
    post.drain(1);
    post.drain(2);
}

/// Strikes until the target dies, respecting the cadence.
fn strike_until_dead(world: &mut World, post: &mut Post, attacker: EntityId, target: EntityId) -> usize {
    for blow in 1..500 {
        attack(world, post, attacker, target, AT_EASE);
        if !is_alive(world, target) {
            return blow;
        }
    }
    panic!("la cible n'est jamais tombee");
}

#[test]
fn une_attaque_au_contact_retire_des_points_de_vie() {
    let mut world = World::new();
    let mut post = Post::default();
    duel(&mut world, &mut post);
    let before = health_of(&world, 2);

    attack(&mut world, &mut post, 1, 2, AT_EASE);

    let after = health_of(&world, 2);
    assert!(after < before, "aucun degat applique");
    assert!(post.drain(1).iter().any(|m| matches!(
        m,
        WorldEvent::DamageDealt {
            attacker: 1,
            target: 2,
            ..
        }
    )));
}

#[test]
fn la_cible_est_prevenue_du_coup_qu_elle_recoit() {
    let mut world = World::new();
    let mut post = Post::default();
    duel(&mut world, &mut post);

    attack(&mut world, &mut post, 1, 2, AT_EASE);

    assert!(post
        .drain(2)
        .iter()
        .any(|m| matches!(m, WorldEvent::DamageDealt { target: 2, .. })));
}

#[test]
fn une_cible_hors_d_allonge_est_refusee() {
    let mut world = World::new();
    let mut post = Post::default();
    duel(&mut world, &mut post);
    teleport(&mut world, &mut post, 2, 3_000, 0);
    post.drain(1);

    attack(&mut world, &mut post, 1, 2, AT_EASE);

    assert_eq!(refusal(&post.drain(1)), Some(AttackRefusal::OutOfRange));
}

#[test]
fn la_cadence_bloque_les_attaques_en_rafale() {
    let mut world = World::new();
    let mut post = Post::default();
    duel(&mut world, &mut post);

    attack(&mut world, &mut post, 1, 2, AT_EASE);
    post.drain(1);
    attack(&mut world, &mut post, 1, 2, 5);

    assert_eq!(refusal(&post.drain(1)), Some(AttackRefusal::TooSoon));
}

#[test]
fn une_rafale_refusee_n_inflige_aucun_degat() {
    let mut world = World::new();
    let mut post = Post::default();
    duel(&mut world, &mut post);

    attack(&mut world, &mut post, 1, 2, AT_EASE);
    let after_first = health_of(&world, 2);
    for _ in 0..50 {
        attack(&mut world, &mut post, 1, 2, 1);
    }

    assert_eq!(health_of(&world, 2), after_first, "la rafale a traverse la cadence");
}

#[test]
fn world_se_prendre_pour_cible_est_refuse() {
    let mut world = World::new();
    let mut post = Post::default();
    duel(&mut world, &mut post);

    attack(&mut world, &mut post, 1, 1, AT_EASE);

    assert_eq!(refusal(&post.drain(1)), Some(AttackRefusal::SelfTarget));
}

#[test]
fn attaquer_une_entite_absente_est_refuse_explicitement() {
    let mut world = World::new();
    let mut post = Post::default();
    duel(&mut world, &mut post);

    attack(&mut world, &mut post, 1, 999, AT_EASE);

    assert_eq!(refusal(&post.drain(1)), Some(AttackRefusal::NoSuchTarget));
}

#[test]
fn la_cible_finit_par_tomber_et_la_mort_est_annoncee() {
    let mut world = World::new();
    let mut post = Post::default();
    duel(&mut world, &mut post);

    strike_until_dead(&mut world, &mut post, 1, 2);

    let seen_by_target = post.drain(2);
    assert!(seen_by_target.iter().any(|m| matches!(
        m,
        WorldEvent::EntityDied {
            entity: 2,
            killer: 1
        }
    )));
    assert!(post
        .drain(1)
        .iter()
        .any(|m| matches!(m, WorldEvent::EntityDied { entity: 2, .. })));
}

#[test]
fn eliminer_une_cible_rapporte_de_l_experience() {
    let mut world = World::new();
    let mut post = Post::default();
    duel(&mut world, &mut post);

    strike_until_dead(&mut world, &mut post, 1, 2);

    assert!(post
        .drain(1)
        .iter()
        .any(|m| matches!(m, WorldEvent::ExperienceGained { amount, .. } if *amount > 0)));
}

#[test]
fn s_acharner_sur_un_cadavre_est_refuse() {
    let mut world = World::new();
    let mut post = Post::default();
    duel(&mut world, &mut post);
    strike_until_dead(&mut world, &mut post, 1, 2);
    post.drain(1);

    attack(&mut world, &mut post, 1, 2, AT_EASE);

    assert_eq!(refusal(&post.drain(1)), Some(AttackRefusal::TargetDown));
}

#[test]
fn un_mort_ne_riposte_pas() {
    let mut world = World::new();
    let mut post = Post::default();
    duel(&mut world, &mut post);
    strike_until_dead(&mut world, &mut post, 1, 2);
    post.drain(2);

    attack(&mut world, &mut post, 2, 1, AT_EASE);

    assert_eq!(refusal(&post.drain(2)), Some(AttackRefusal::AttackerDown));
}

#[test]
fn un_mort_ne_se_deplace_pas() {
    let mut world = World::new();
    let mut post = Post::default();
    duel(&mut world, &mut post);
    strike_until_dead(&mut world, &mut post, 1, 2);
    let position = world.position_of(2).unwrap();
    post.drain(2);

    teleport(&mut world, &mut post, 2, 9_000, 9_000);

    assert_eq!(world.position_of(2).unwrap(), position);
    assert!(post
        .drain(2)
        .iter()
        .any(|m| matches!(m, WorldEvent::MoveRejected { .. })));
}

#[test]
fn reapparaitre_restaure_les_points_de_vie_et_previent_les_temoins() {
    let mut world = World::new();
    let mut post = Post::default();
    duel(&mut world, &mut post);
    strike_until_dead(&mut world, &mut post, 1, 2);
    post.drain(1);
    post.drain(2);

    post.deliver(world.request_respawn(2));

    let character = world.character_of(2).unwrap();
    assert!(character.is_alive());
    assert_eq!(character.vitals().current(), character.vitals().max());
    assert!(
        post.drain(1)
            .iter()
            .any(|m| matches!(m, WorldEvent::EntityRespawned { entity: 2, .. })),
        "le temoin n'a pas ete prevenu du retour"
    );
}

#[test]
fn la_reapparition_n_est_annoncee_qu_une_fois_a_l_interesse() {
    let mut world = World::new();
    let mut post = Post::default();
    duel(&mut world, &mut post);
    strike_until_dead(&mut world, &mut post, 1, 2);
    post.drain(2);

    post.deliver(world.request_respawn(2));

    let announcements = post
        .drain(2)
        .iter()
        .filter(|m| matches!(m, WorldEvent::EntityRespawned { .. }))
        .count();
    assert_eq!(announcements, 1, "evenement livre en double");
}

#[test]
fn reapparaitre_vivant_ne_soigne_pas() {
    let mut world = World::new();
    let mut post = Post::default();
    duel(&mut world, &mut post);
    attack(&mut world, &mut post, 1, 2, AT_EASE);
    let wounded = health_of(&world, 2);

    assert!(world.request_respawn(2).is_empty());

    assert_eq!(health_of(&world, 2), wounded, "la reapparition sert de soin gratuit");
}

// --- Further cases ---

#[test]
fn l_apparition_suit_la_grille_des_points_de_depart() {
    assert_eq!(spawn_position(0), Position::new(0, 0));
    assert_eq!(spawn_position(1), Position::new(300, 0));
    assert_eq!(spawn_position(9), Position::new(300, 300));
    assert_eq!(spawn_position(63), Position::new(2_100, 2_100));
    assert_eq!(spawn_position(64), Position::new(0, 0));
    let mut world = World::new();
    assert_eq!(world.enter(9).0, Position::new(300, 300));
}

#[test]
fn le_premier_coup_suit_les_attributs_de_depart() {
    // Attack 120 + 10 * 5 = 170 against armour 8 * 10 = 80 at level 1:
    // 170 * 40 / (80 + 40) = 56.
    let mut world = World::new();
    let mut post = Post::default();
    duel(&mut world, &mut post);
    let before = health_of(&world, 2);
    assert_eq!(before, 400);

    attack(&mut world, &mut post, 1, 2, AT_EASE);

    assert_eq!(health_of(&world, 2), before - 56);
    assert!(post.drain(1).contains(&WorldEvent::DamageDealt {
        attacker: 1,
        target: 2,
        damage: 56,
        remaining_health: 344
    }));
}

#[test]
fn la_mort_rapporte_cinquante_points_par_niveau_de_la_victime() {
    let mut world = World::new();
    let mut post = Post::default();
    duel(&mut world, &mut post);

    strike_until_dead(&mut world, &mut post, 1, 2);

    let told = post.drain(1);
    assert_eq!(told.last(), Some(&WorldEvent::ExperienceGained { amount: 50, level: 1 }));
    assert_eq!(world.character_of(1).unwrap().experience().get(), 50);
}

#[test]
fn un_temoin_proche_de_la_cible_voit_le_coup() {
    let mut world = World::new();
    let mut post = Post::default();
    duel(&mut world, &mut post);
    join(&mut world, &mut post, 3);
    post.drain(3);

    attack(&mut world, &mut post, 1, 2, AT_EASE);

    assert!(post
        .drain(3)
        .iter()
        .any(|m| matches!(m, WorldEvent::DamageDealt { attacker: 1, target: 2, .. })));
}

#[test]
fn rentrer_avec_le_meme_identifiant_remplace_l_entite() {
    let mut world = World::new();
    let mut post = Post::default();
    join(&mut world, &mut post, 1);
    join(&mut world, &mut post, 2);
    teleport(&mut world, &mut post, 2, 500_000, 0);
    post.drain(1);
    post.drain(2);

    join(&mut world, &mut post, 2);

    assert_eq!(world.population(), 2);
    assert_eq!(world.position_of(2), Some(spawn_position(2)));
    assert!(post
        .drain(1)
        .iter()
        .any(|m| matches!(m, WorldEvent::EntityAppeared { entity_id: 2, .. })));
    // Walking away afterwards is announced exactly once more.
    teleport(&mut world, &mut post, 2, 500_000, 0);
    assert_eq!(post.drain(1), vec![WorldEvent::EntityVanished { entity_id: 2 }]);
}

#[test]
fn un_deplacement_hors_de_vue_ne_previent_personne() {
    let mut world = World::new();
    let mut post = Post::default();
    join(&mut world, &mut post, 1);
    join(&mut world, &mut post, 2);
    teleport(&mut world, &mut post, 2, 500_000, 0);
    post.drain(1);

    teleport(&mut world, &mut post, 2, 500_100, 0);

    assert!(post.drain(1).is_empty());
    assert!(world.indexed_cells() <= world.population());
}

#[test]
fn entrer_puis_sortir_laisse_le_monde_intact() {
    let mut world = World::new();
    let mut post = Post::default();
    join(&mut world, &mut post, 1);
    join(&mut world, &mut post, 2);
    teleport(&mut world, &mut post, 2, 1_000, 1_000);
    post.drain(1);
    post.drain(2);

    join(&mut world, &mut post, 3);
    post.deliver(world.leave(3));

    assert_eq!(world.population(), 2);
    assert_eq!(world.position_of(1), Some(spawn_position(1)));
    assert_eq!(world.position_of(2), Some(Position::new(1_000, 1_000)));
    assert_eq!(world.indexed_cells(), 1);
    // Both saw the newcomer arrive and leave, and nothing else.
    assert_eq!(
        post.drain(1),
        vec![
            WorldEvent::EntityAppeared { entity_id: 3, x: 900, y: 0 },
            WorldEvent::EntityVanished { entity_id: 3 }
        ]
    );
    // Perception between the two that stayed is untouched: a move is still
    // reported as a move.
    teleport(&mut world, &mut post, 2, 1_100, 1_000);
    assert_eq!(
        post.drain(1),
        vec![WorldEvent::EntityMoved { entity_id: 2, x: 1_100, y: 1_000 }]
    );
}
