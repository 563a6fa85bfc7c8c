use hwarang::account::{
    AccountId, CredentialError, MAX_PASSWORD_LEN, MAX_USERNAME_LEN, MIN_PASSWORD_LEN,
    MIN_USERNAME_LEN, validate_credentials,
};
use hwarang::character::{Attributes, CharacterId};
use hwarang::experience::{Experience, ProgressionCurve};
use hwarang::position::Position;
use hwarang::storage::{
    SavedCharacter, StorageError, check_login, dummy_hash, experience_from_column, experience_to_column,
    prepare_registration, registration_outcome,
    verify_against_dummy,
};

#[test]
fn l_identifiant_de_compte_traverse_le_reseau_sans_perte() {
    for value in [0, 1, i64::MAX, i64::MIN, -1] {
        let account = AccountId::new(value);
        assert_eq!(AccountId::from_u64(account.as_u64()), account);
    }
}

#[test]
fn un_nom_et_un_mot_de_passe_ordinaires_sont_acceptes() {
    assert_eq!(
        validate_credentials("morgann", "mot-de-passe-solide"),
        Ok(())
    );
    assert_eq!(validate_credentials("a_b-9", "0123456789"), Ok(()));
}

#[test]
fn les_bornes_de_longueur_sont_appliquees() {
    assert_eq!(
        validate_credentials("ab", "mot-de-passe-solide"),
        Err(CredentialError::UsernameTooShort)
    );
    assert_eq!(
        validate_credentials(&"a".repeat(MAX_USERNAME_LEN + 1), "mot-de-passe-solide"),
        Err(CredentialError::UsernameTooLong)
    );
    assert_eq!(
        validate_credentials("morgann", "court"),
        Err(CredentialError::PasswordTooShort)
    );
    assert_eq!(
        validate_credentials("morgann", &"x".repeat(MAX_PASSWORD_LEN + 1)),
        Err(CredentialError::PasswordTooLong)
    );
}

#[test]
fn les_bornes_exactes_passent() {
    assert_eq!(
        validate_credentials(&"a".repeat(MIN_USERNAME_LEN), &"x".repeat(MIN_PASSWORD_LEN)),
        Ok(())
    );
    assert_eq!(
        validate_credentials(&"a".repeat(MAX_USERNAME_LEN), &"x".repeat(MAX_PASSWORD_LEN)),
        Ok(())
    );
}

#[test]
fn les_homographes_unicode_sont_refuses() {
    assert_eq!(
        validate_credentials("morg\u{0430}nn", "mot-de-passe-solide"),
        Err(CredentialError::UsernameHasInvalidCharacters)
    );
    assert_eq!(
        validate_credentials("mor gann", "mot-de-passe-solide"),
        Err(CredentialError::UsernameHasInvalidCharacters)
    );
}

#[test]
fn un_mot_de_passe_accepte_tout_caractere() {
    assert_eq!(
        validate_credentials("morgann", "\u{1F43A} \u{e9}l\u{e8}ve-guerrier \u{d55c}\u{b7c9}"),
        Ok(())
    );
}

#[test]
fn la_verification_factice_ne_valide_jamais_rien() {
    let dummy = dummy_hash();
    verify_against_dummy("mot-de-passe-inexistant", &dummy);
    assert!(!dummy.is_empty());
    assert!(dummy.starts_with("$argon2id$"));
    assert!(check_login(Some((1, dummy.as_str())), "autre-chose-encore", &dummy).is_err());
}

fn sample() -> SavedCharacter {
    SavedCharacter {
        level: 12,
        experience: 3_456,
        attributes: Attributes {
            strength: 14,
            dexterity: 9,
            vitality: 11,
            intellect: 6,
        },
        current_health: 250,
        position: Position::new(-1_500, 2_400),
    }
}

#[test]
fn un_personnage_recharge_redevient_jouable() {
    let restored = sample()
        .into_character(CharacterId::new(1), ProgressionCurve::standard())
        .unwrap();

    assert_eq!(restored.level().get(), 12);
    assert_eq!(restored.experience(), Experience::new(3_456));
    assert_eq!(restored.vitals().current(), 250);
    assert!(restored.is_alive());
}

#[test]
fn une_ligne_incoherente_est_refusee_plutot_que_chargee() {
    let corrupt = SavedCharacter {
        level: 0,
        ..sample()
    };
    assert!(matches!(
        corrupt.into_character(CharacterId::new(1), ProgressionCurve::standard()),
        Err(StorageError::CorruptCharacter)
    ));
}

#[test]
fn la_capture_puis_le_rechargement_conservent_l_etat() {
    let character = sample()
        .into_character(CharacterId::new(1), ProgressionCurve::standard())
        .unwrap();
    let position = Position::new(700, -300);

    let captured = SavedCharacter::of(&character, position);
    let round_tripped = captured
        .into_character(CharacterId::new(1), ProgressionCurve::standard())
        .unwrap();

    assert_eq!(round_tripped, character);
    assert_eq!(captured.position, position);
}

// Further cases.

#[test]
fn les_identifiants_negatifs_deviennent_de_grands_entiers() {
    assert_eq!(AccountId::new(-1).as_u64(), u64::MAX);
    assert_eq!(AccountId::new(i64::MIN).as_u64(), 1u64 << 63);
    assert_eq!(AccountId::from_u64(u64::MAX).get(), -1);
}

#[test]
fn un_caractere_hors_ascii_est_refuse_dans_le_nom() {
    assert_eq!(
        validate_credentials("caf\u{e9}s", "mot-de-passe-solide"),
        Err(CredentialError::UsernameHasInvalidCharacters)
    );
    assert_eq!(CredentialError::UsernameTooShort.message(), "nom trop court");
}

#[test]
fn une_sante_au_dela_du_plafond_est_refusee() {
    let too_healthy = SavedCharacter {
        current_health: 10_000,
        ..sample()
    };
    assert!(matches!(
        too_healthy.into_character(CharacterId::new(1), ProgressionCurve::standard()),
        Err(StorageError::CorruptCharacter)
    ));
}

#[test]
fn l_inscription_refuse_des_identifiants_hors_bornes_avant_tout_hachage() {
    assert!(matches!(
        prepare_registration("ab", "mot-de-passe-solide"),
        Err(StorageError::Credentials(CredentialError::UsernameTooShort))
    ));
}

#[test]
fn un_hachage_prepare_permet_la_connexion() {
    let hash = prepare_registration("morgann", "mot-de-passe-solide").unwrap();
    assert!(hash.starts_with("$argon2"));
    let dummy = dummy_hash();
    assert_eq!(
        check_login(Some((5, hash.as_str())), "mot-de-passe-solide", &dummy).unwrap(),
        AccountId::new(5)
    );
    assert!(matches!(
        check_login(Some((5, hash.as_str())), "mauvais-mot-de-passe", &dummy),
        Err(StorageError::InvalidCredentials)
    ));
    assert!(matches!(
        check_login(None, "mot-de-passe-solide", &dummy),
        Err(StorageError::InvalidCredentials)
    ));
    assert!(matches!(
        check_login(Some((5, "pas un hachage")), "peu-importe", &dummy),
        Err(StorageError::InvalidCredentials)
    ));
    assert!(matches!(
        check_login(Some((5, "")), "peu-importe", &dummy),
        Err(StorageError::InvalidCredentials)
    ));
}

#[test]
fn un_hachage_se_verifie_contre_son_mot_de_passe() {
    let hash = prepare_registration("morgann", "mot-de-passe-solide").unwrap();
    let dummy = dummy_hash();
    assert!(check_login(Some((1, hash.as_str())), "mot-de-passe-solide", &dummy).is_ok());
    assert!(check_login(Some((1, hash.as_str())), "autre-mot-de-passe", &dummy).is_err());
}

#[test]
fn deux_hachages_du_meme_mot_de_passe_different() {
    let first = prepare_registration("morgann", "mot-de-passe-solide").unwrap();
    let second = prepare_registration("morgann", "mot-de-passe-solide").unwrap();
    assert_ne!(first, second);
    let dummy = dummy_hash();
    assert!(check_login(Some((1, first.as_str())), "mot-de-passe-solide", &dummy).is_ok());
    assert!(check_login(Some((1, second.as_str())), "mot-de-passe-solide", &dummy).is_ok());
}

#[test]
fn un_hachage_illisible_refuse_sans_paniquer() {
    let dummy = dummy_hash();
    assert!(matches!(
        check_login(Some((1, "pas un hachage")), "peu-importe", &dummy),
        Err(StorageError::InvalidCredentials)
    ));
    assert!(matches!(
        check_login(Some((1, "")), "peu-importe", &dummy),
        Err(StorageError::InvalidCredentials)
    ));
}

#[test]
fn une_insertion_ignoree_signale_un_nom_pris() {
    assert!(matches!(registration_outcome(0, 17), Err(StorageError::UsernameTaken)));
    assert_eq!(registration_outcome(1, 17).unwrap(), AccountId::new(17));
}

#[test]
fn l_experience_fait_l_aller_retour_par_un_entier_signe() {
    assert_eq!(experience_to_column(3_456), 3_456);
    assert_eq!(experience_to_column(u64::MAX), i64::MAX);
    assert_eq!(experience_from_column(3_456), 3_456);
    assert_eq!(experience_from_column(-1), 0);
    assert_eq!(experience_from_column(experience_to_column(1 << 40)), 1 << 40);
}

#[test]
fn les_erreurs_de_stockage_se_decrivent() {
    assert_eq!(StorageError::UsernameTaken.message(), "nom deja pris");
    assert_eq!(StorageError::InvalidCredentials.message(), "identifiants incorrects");
    assert_eq!(
        StorageError::Credentials(CredentialError::PasswordTooShort).message(),
        "identifiants invalides : mot de passe trop court"
    );
    assert_eq!(StorageError::CorruptCharacter.message(), "personnage sauvegarde incoherent");
    let database = StorageError::Database(rusqlite::Error::QueryReturnedNoRows).message();
    assert_eq!(database, format!("base de donnees : {}", rusqlite::Error::QueryReturnedNoRows));
}

#[test]
fn les_longueurs_se_comptent_en_octets_et_les_caracteres_un_par_un() {
    // One accented letter: two bytes, below the minimum of three.
    assert_eq!(validate_credentials("\u{e9}", "mot-de-passe-solide"), Err(CredentialError::UsernameTooShort));
    // Two accented letters: four bytes, long enough, but not allowed.
    assert_eq!(
        validate_credentials("\u{e9}\u{e9}", "mot-de-passe-solide"),
        Err(CredentialError::UsernameHasInvalidCharacters)
    );
    // Seventeen two-byte letters: 34 bytes, over the maximum of 32.
    assert_eq!(
        validate_credentials(&"\u{e9}".repeat(17), "mot-de-passe-solide"),
        Err(CredentialError::UsernameTooLong)
    );
    assert_eq!(validate_credentials("Mor-gann_42", "mot-de-passe-solide"), Ok(()));
}
