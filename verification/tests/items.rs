use hwarang::catalog::{Catalog, ItemDefinition, ItemId, Slot};
use hwarang::equipment::Equipment;
use hwarang::inventory::{Inventory, InventoryError};
use hwarang::level::Level;

#[test]
fn un_objet_absent_du_catalogue_n_a_pas_de_definition() {
    assert_eq!(Catalog::new().definition(ItemId::new(1)), None);
}

#[test]
fn une_definition_ajoutee_se_relit() {
    let sword = ItemDefinition {
        slot: Some(Slot::Weapon),
        attack_bonus: 40,
        required_level: 5,
        ..ItemDefinition::default()
    };
    let catalog = Catalog::new().with(ItemId::new(1), sword);

    assert_eq!(catalog.definition(ItemId::new(1)), Some(sword));
    assert!(catalog.contains(ItemId::new(1)));
    assert_eq!(catalog.len(), 1);
}

#[test]
fn une_seconde_definition_remplace_la_premiere() {
    let catalog = Catalog::new()
        .with(ItemId::new(1), ItemDefinition::default())
        .with(
            ItemId::new(1),
            ItemDefinition {
                attack_bonus: 99,
                ..ItemDefinition::default()
            },
        );

    assert_eq!(catalog.len(), 1);
    assert_eq!(
        catalog.definition(ItemId::new(1)).map(|d| d.attack_bonus),
        Some(99)
    );
}

fn sword() -> ItemId {
    ItemId::new(1)
}

fn armor() -> ItemId {
    ItemId::new(2)
}

fn potion() -> ItemId {
    ItemId::new(3)
}

fn great_sword() -> ItemId {
    ItemId::new(4)
}

fn catalog() -> Catalog {
    Catalog::new()
        .with(
            sword(),
            ItemDefinition {
                slot: Some(Slot::Weapon),
                attack_bonus: 40,
                ..ItemDefinition::default()
            },
        )
        .with(
            armor(),
            ItemDefinition {
                slot: Some(Slot::Armor),
                defense_bonus: 25,
                ..ItemDefinition::default()
            },
        )
        .with(potion(), ItemDefinition::default())
        .with(
            great_sword(),
            ItemDefinition {
                slot: Some(Slot::Weapon),
                attack_bonus: 120,
                required_level: 20,
                ..ItemDefinition::default()
            },
        )
}

fn level(value: u8) -> Level {
    Level::new(value).unwrap()
}

#[test]
fn un_equipement_neuf_n_apporte_aucun_bonus() {
    let empty = Equipment::empty();
    assert_eq!(empty.attack_bonus(&catalog()), 0);
    assert_eq!(empty.defense_bonus(&catalog()), 0);
}

#[test]
fn une_arme_equipee_apporte_son_bonus() {
    let (equipment, previous) = Equipment::empty()
        .equip(sword(), &catalog(), level(1))
        .unwrap();

    assert_eq!(previous, None);
    assert_eq!(equipment.at(Slot::Weapon), Some(sword()));
    assert_eq!(equipment.attack_bonus(&catalog()), 40);
}

#[test]
fn les_emplacements_se_cumulent_sans_se_gener() {
    let (equipment, _) = Equipment::empty()
        .equip(sword(), &catalog(), level(1))
        .unwrap();
    let (equipment, _) = equipment.equip(armor(), &catalog(), level(1)).unwrap();

    assert_eq!(equipment.attack_bonus(&catalog()), 40);
    assert_eq!(equipment.defense_bonus(&catalog()), 25);
}

#[test]
fn remplacer_une_arme_rend_la_precedente() {
    let (equipment, _) = Equipment::empty()
        .equip(sword(), &catalog(), level(1))
        .unwrap();
    let (equipment, previous) = equipment.equip(great_sword(), &catalog(), level(20)).unwrap();

    assert_eq!(previous, Some(sword()));
    assert_eq!(equipment.at(Slot::Weapon), Some(great_sword()));
}

#[test]
fn un_objet_non_equipable_est_refuse() {
    assert_eq!(Equipment::empty().equip(potion(), &catalog(), level(1)), None);
}

#[test]
fn un_objet_inconnu_du_catalogue_est_refuse() {
    assert_eq!(
        Equipment::empty().equip(ItemId::new(999), &catalog(), level(1)),
        None
    );
}

#[test]
fn un_objet_hors_de_portee_du_palier_est_refuse() {
    assert_eq!(
        Equipment::empty().equip(great_sword(), &catalog(), level(19)),
        None
    );
    assert!(
        Equipment::empty()
            .equip(great_sword(), &catalog(), level(20))
            .is_some(),
        "le palier exact doit suffire"
    );
}

#[test]
fn retirer_rend_l_objet_et_supprime_son_bonus() {
    let (equipment, _) = Equipment::empty()
        .equip(sword(), &catalog(), level(1))
        .unwrap();
    let (equipment, removed) = equipment.unequip(Slot::Weapon);

    assert_eq!(removed, Some(sword()));
    assert_eq!(equipment.at(Slot::Weapon), None);
    assert_eq!(equipment.attack_bonus(&catalog()), 0);
}

#[test]
fn retirer_un_emplacement_vide_est_sans_effet() {
    let (equipment, removed) = Equipment::empty().unequip(Slot::Armor);
    assert_eq!(removed, None);
    assert_eq!(equipment, Equipment::empty());
}

#[test]
fn un_objet_disparu_du_catalogue_ne_rapporte_rien_sans_casser() {
    let (equipment, _) = Equipment::empty()
        .equip(sword(), &catalog(), level(1))
        .unwrap();

    assert_eq!(equipment.attack_bonus(&Catalog::new()), 0);
}

#[test]
fn un_reequilibrage_s_applique_aux_objets_deja_portes() {
    let (equipment, _) = Equipment::empty()
        .equip(sword(), &catalog(), level(1))
        .unwrap();

    let rebalanced = catalog().with(
        sword(),
        ItemDefinition {
            slot: Some(Slot::Weapon),
            attack_bonus: 5,
            ..ItemDefinition::default()
        },
    );
    assert_eq!(equipment.attack_bonus(&rebalanced), 5);
}

#[test]
fn les_bonus_saturent_au_lieu_de_deborder() {
    let extreme = Catalog::new()
        .with(
            sword(),
            ItemDefinition {
                slot: Some(Slot::Weapon),
                attack_bonus: u32::MAX,
                ..ItemDefinition::default()
            },
        )
        .with(
            armor(),
            ItemDefinition {
                slot: Some(Slot::Armor),
                attack_bonus: u32::MAX,
                ..ItemDefinition::default()
            },
        );

    let (equipment, _) = Equipment::empty().equip(sword(), &extreme, level(1)).unwrap();
    let (equipment, _) = equipment.equip(armor(), &extreme, level(1)).unwrap();

    assert_eq!(equipment.attack_bonus(&extreme), u32::MAX);
}

fn item(id: u32) -> ItemId {
    ItemId::new(id)
}

#[test]
fn un_sac_de_capacite_nulle_est_refuse() {
    assert_eq!(Inventory::with_capacity(0), None);
}

#[test]
fn un_sac_neuf_est_vide_mais_pas_plein() {
    let bag = Inventory::with_capacity(3).unwrap();
    assert!(bag.is_empty());
    assert!(!bag.is_full());
    assert_eq!(bag.count(), 0);
    assert_eq!(bag.capacity(), 3);
}

#[test]
fn un_objet_range_se_retrouve_a_son_emplacement() {
    let bag = Inventory::with_capacity(3).unwrap();
    let (bag, index) = bag.add(item(7)).unwrap();

    assert_eq!(index, 0);
    assert_eq!(bag.at(0), Some(item(7)));
    assert_eq!(bag.count(), 1);
}

#[test]
fn les_objets_occupent_les_emplacements_dans_l_ordre() {
    let bag = Inventory::with_capacity(3).unwrap();
    let (bag, _) = bag.add(item(1)).unwrap();
    let (bag, second) = bag.add(item(2)).unwrap();

    assert_eq!(second, 1);
    assert_eq!(bag.at(0), Some(item(1)));
    assert_eq!(bag.at(1), Some(item(2)));
}

#[test]
fn un_sac_plein_refuse_tout_ajout() {
    let mut bag = Inventory::with_capacity(2).unwrap();
    for id in 1..=2 {
        bag = bag.add(item(id)).unwrap().0;
    }

    assert!(bag.is_full());
    assert_eq!(bag.add(item(3)), Err(InventoryError::Full));
}

#[test]
fn retirer_laisse_un_trou_sans_decaler_le_reste() {
    let mut bag = Inventory::with_capacity(3).unwrap();
    for id in 1..=3 {
        bag = bag.add(item(id)).unwrap().0;
    }

    let (bag, removed) = bag.remove(1).unwrap();

    assert_eq!(removed, item(2));
    assert_eq!(bag.at(0), Some(item(1)));
    assert_eq!(bag.at(1), None);
    assert_eq!(bag.at(2), Some(item(3)), "l'objet suivant a ete decale");
}

#[test]
fn le_trou_laisse_est_reutilise_avant_les_emplacements_suivants() {
    let mut bag = Inventory::with_capacity(3).unwrap();
    for id in 1..=3 {
        bag = bag.add(item(id)).unwrap().0;
    }
    let (bag, _) = bag.remove(0).unwrap();

    let (bag, index) = bag.add(item(9)).unwrap();
    assert_eq!(index, 0);
    assert_eq!(bag.at(0), Some(item(9)));
}

#[test]
fn retirer_d_un_emplacement_vide_ou_inexistant_echoue() {
    let bag = Inventory::with_capacity(2).unwrap();
    assert_eq!(bag.remove(0), Err(InventoryError::NoSuchSlot));
    assert_eq!(bag.remove(99), Err(InventoryError::NoSuchSlot));
}

#[test]
fn une_operation_refusee_ne_modifie_rien() {
    let bag = Inventory::with_capacity(1).unwrap();
    let (full, _) = bag.add(item(1)).unwrap();

    assert!(full.add(item(2)).is_err());
    assert_eq!(full.at(0), Some(item(1)));
    assert_eq!(full.count(), 1);
}

#[test]
fn le_meme_objet_peut_etre_porte_en_plusieurs_exemplaires() {
    let bag = Inventory::with_capacity(3).unwrap();
    let (bag, _) = bag.add(item(5)).unwrap();
    let (bag, _) = bag.add(item(5)).unwrap();

    assert_eq!(bag.count(), 2);
    assert_eq!(bag.at(0), bag.at(1));
}

#[test]
fn le_parcours_expose_les_trous() {
    let bag = Inventory::with_capacity(2).unwrap();
    let (bag, _) = bag.add(item(1)).unwrap();

    let listing: Vec<(usize, Option<ItemId>)> = bag.slots();
    assert_eq!(listing, vec![(0, Some(item(1))), (1, None)]);
}

// Further cases.

#[test]
fn le_sac_par_defaut_a_la_capacite_de_reference() {
    let bag = Inventory::default();
    assert_eq!(bag.capacity(), Inventory::DEFAULT_CAPACITY);
    assert!(bag.is_empty());
}

#[test]
fn placer_ecrase_et_ignore_les_emplacements_hors_du_sac() {
    let bag = Inventory::with_capacity(2).unwrap();
    let (bag, _) = bag.add(item(1)).unwrap();
    let bag = bag.placed(0, item(8));
    assert_eq!(bag.at(0), Some(item(8)));
    let same = bag.placed(5, item(9));
    assert_eq!(same, bag);
    assert_eq!(same.clone(), bag);
}

#[test]
fn imposer_un_emplacement_ne_consulte_pas_le_catalogue() {
    let equipment = Equipment::empty().forced(Slot::Armor, Some(item(404)));
    assert_eq!(equipment.at(Slot::Armor), Some(item(404)));
    assert_eq!(equipment.defense_bonus(&catalog()), 0);
}

#[test]
fn le_catalogue_vide_et_ses_copies() {
    assert!(Catalog::new().is_empty());
    assert!(!catalog().is_empty());
    assert_eq!(catalog().clone().len(), 4);
    assert!(Catalog::default().is_empty());
    assert_eq!(item(12).get(), 12);
}

#[test]
fn retirer_ce_qu_on_vient_de_ranger_rend_le_sac_intact() {
    let bag = Inventory::with_capacity(3).unwrap();
    let (bag, _) = bag.add(ItemId::new(1)).unwrap();
    let (with_item, index) = bag.add(ItemId::new(7)).unwrap();
    assert_eq!(index, 1);
    let (after, taken) = with_item.remove(index).unwrap();
    assert_eq!(taken, ItemId::new(7));
    assert_eq!(after, bag);
}
