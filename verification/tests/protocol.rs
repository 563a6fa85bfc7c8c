use hwarang::codec::{Reader, Writer};
use hwarang::protocol::{ClientMessage, DecodeError, MAX_FRAME_LEN, OP_PING, PROTOCOL_VERSION, ServerMessage};
use hwarang::session::{Reaction, Session, next_reaction, take_in};

/// Builds a frame by hand, as an adversary would.
fn encode(opcode: u8, payload: &[u8]) -> Vec<u8> {
    let announced = u16::try_from(payload.len() + 1).unwrap();
    let mut out = announced.to_be_bytes().to_vec();
    out.push(opcode);
    out.extend_from_slice(payload);
    out
}

#[test]
fn les_messages_client_font_un_aller_retour_fidele() {
    for message in [
        ClientMessage::Handshake {
            protocol_version: PROTOCOL_VERSION,
        },
        ClientMessage::Ping { nonce: 0xDEAD_BEEF },
    ] {
        let bytes = message.encode();
        let (decoded, consumed) = ClientMessage::decode(&bytes).unwrap();
        assert_eq!(decoded, message);
        assert_eq!(consumed, bytes.len());
    }
}

#[test]
fn les_messages_serveur_font_un_aller_retour_fidele() {
    for message in [
        ServerMessage::HandshakeAccepted { session_id: 42 },
        ServerMessage::HandshakeRejected {
            expected_version: PROTOCOL_VERSION,
        },
        ServerMessage::Pong { nonce: 7 },
    ] {
        let bytes = message.encode();
        let (decoded, consumed) = ServerMessage::decode(&bytes).unwrap();
        assert_eq!(decoded, message);
        assert_eq!(consumed, bytes.len());
    }
}

#[test]
fn une_trame_tronquee_est_incomplete_et_non_invalide() {
    let bytes = ClientMessage::Ping { nonce: 1 }.encode();
    for cut in 0..bytes.len() {
        assert_eq!(
            ClientMessage::decode(&bytes[..cut]),
            Err(DecodeError::Incomplete),
            "coupe a {cut}"
        );
    }
}

#[test]
fn le_decodage_isole_une_seule_trame_dans_un_flux() {
    let mut stream = ClientMessage::Ping { nonce: 1 }.encode();
    let first_len = stream.len();
    stream.extend(ClientMessage::Ping { nonce: 2 }.encode());

    let (first, consumed) = ClientMessage::decode(&stream).unwrap();
    assert_eq!(first, ClientMessage::Ping { nonce: 1 });
    assert_eq!(consumed, first_len);

    let (second, _) = ClientMessage::decode(&stream[consumed..]).unwrap();
    assert_eq!(second, ClientMessage::Ping { nonce: 2 });
}

#[test]
fn une_longueur_hostile_est_rejetee_sans_allocation() {
    let oversized = u16::try_from(MAX_FRAME_LEN).unwrap_or(u16::MAX) + 1;
    let mut bytes = oversized.to_be_bytes().to_vec();
    bytes.push(OP_PING);
    assert!(matches!(
        ClientMessage::decode(&bytes),
        Err(DecodeError::FrameTooLarge { .. })
    ));
}

#[test]
fn un_opcode_inconnu_est_signale() {
    let bytes = encode(0x7F, &[0, 0]);
    assert_eq!(
        ClientMessage::decode(&bytes),
        Err(DecodeError::UnknownOpcode(0x7F))
    );
}

#[test]
fn une_charge_utile_de_mauvaise_taille_est_rejetee() {
    let bytes = encode(OP_PING, &[1, 2]);
    assert_eq!(
        ClientMessage::decode(&bytes),
        Err(DecodeError::MalformedPayload)
    );
}

#[test]
fn une_trame_vide_est_rejetee() {
    let bytes = 0u16.to_be_bytes();
    assert_eq!(
        ClientMessage::decode(&bytes),
        Err(DecodeError::MalformedPayload)
    );
}

#[test]
fn lit_les_champs_dans_l_ordre_ecrit() {
    let bytes = Writer::default()
        .u64(0x0123_4567_89AB_CDEF)
        .i32(-42)
        .u16(7)
        .into_bytes();

    let mut reader = Reader::new(&bytes);
    assert_eq!(reader.u64(), Ok(0x0123_4567_89AB_CDEF));
    assert_eq!(reader.i32(), Ok(-42));
    assert_eq!(reader.u16(), Ok(7));
    assert_eq!(reader.finish(), Ok(()));
}

#[test]
fn une_charge_trop_courte_est_rejetee() {
    let bytes = Writer::default().u16(1).into_bytes();
    assert_eq!(
        Reader::new(&bytes).u64(),
        Err(DecodeError::MalformedPayload)
    );
}

#[test]
fn un_reliquat_non_lu_est_rejete() {
    let bytes = Writer::default().u32(1).u32(2).into_bytes();
    let mut reader = Reader::new(&bytes);
    assert_eq!(reader.u32(), Ok(1));
    assert_eq!(reader.finish(), Err(DecodeError::MalformedPayload));
}

#[test]
fn les_entiers_signes_survivent_a_l_aller_retour() {
    for value in [i32::MIN, -1, 0, 1, i32::MAX] {
        let bytes = Writer::default().i32(value).into_bytes();
        assert_eq!(Reader::new(&bytes).i32(), Ok(value));
    }
}

fn handshake(version: u16) -> ClientMessage {
    ClientMessage::Handshake {
        protocol_version: version,
    }
}

#[test]
fn un_handshake_valide_etablit_la_session() {
    let mut session = Session::new(7);
    let reaction = session.on_message(handshake(PROTOCOL_VERSION));

    assert_eq!(
        reaction,
        Reaction::Reply(ServerMessage::HandshakeAccepted { session_id: 7 })
    );
}

#[test]
fn une_version_incompatible_est_refusee_explicitement() {
    let mut session = Session::new(7);
    let reaction = session.on_message(handshake(PROTOCOL_VERSION + 1));

    assert_eq!(
        reaction,
        Reaction::ReplyAndClose(ServerMessage::HandshakeRejected {
            expected_version: PROTOCOL_VERSION,
        })
    );
    assert_eq!(
        session.on_message(ClientMessage::Ping { nonce: 1 }),
        Reaction::Close
    );
}

#[test]
fn toute_trame_avant_le_handshake_ferme_la_connexion() {
    let mut session = Session::new(7);
    assert_eq!(
        session.on_message(ClientMessage::Ping { nonce: 1 }),
        Reaction::Close
    );
}

#[test]
fn le_ping_est_servi_une_fois_la_session_etablie() {
    let mut session = Session::new(7);
    session.on_message(handshake(PROTOCOL_VERSION));

    assert_eq!(
        session.on_message(ClientMessage::Ping { nonce: 99 }),
        Reaction::Reply(ServerMessage::Pong { nonce: 99 })
    );
}

#[test]
fn un_second_handshake_ferme_la_connexion() {
    let mut session = Session::new(7);
    session.on_message(handshake(PROTOCOL_VERSION));

    assert_eq!(
        session.on_message(handshake(PROTOCOL_VERSION)),
        Reaction::Close
    );
}

// Further cases.

#[test]
fn les_octets_du_ping_sont_ceux_du_format() {
    assert_eq!(
        ClientMessage::Ping { nonce: 0x0102_0304 }.encode(),
        vec![0, 5, 0x02, 1, 2, 3, 4]
    );
    assert_eq!(
        ServerMessage::HandshakeAccepted { session_id: 1 }.encode(),
        vec![0, 9, 0x81, 0, 0, 0, 0, 0, 0, 0, 1]
    );
    assert_eq!(
        ServerMessage::HandshakeRejected { expected_version: 0x0203 }.encode(),
        vec![0, 3, 0x82, 2, 3]
    );
}

#[test]
fn le_decodage_serveur_signale_les_memes_erreurs() {
    assert_eq!(ServerMessage::decode(&[0]), Err(DecodeError::Incomplete));
    assert_eq!(ServerMessage::decode(&encode(0x01, &[0, 1])), Err(DecodeError::UnknownOpcode(0x01)));
    assert_eq!(ServerMessage::decode(&encode(0x83, &[0, 1])), Err(DecodeError::MalformedPayload));
    assert_eq!(
        ServerMessage::decode(&[0xff, 0xff]),
        Err(DecodeError::FrameTooLarge { announced: 0xffff })
    );
}

#[test]
fn une_longueur_maximale_est_acceptee_en_attente_de_la_suite() {
    let announced = u16::try_from(MAX_FRAME_LEN).unwrap();
    let bytes = announced.to_be_bytes();
    assert_eq!(ClientMessage::decode(&bytes), Err(DecodeError::Incomplete));
}

#[test]
fn les_octets_et_entiers_courts_se_relisent() {
    let bytes = Writer::default().u8(200).u32(0xDEAD_BEEF).into_bytes();
    assert_eq!(bytes, vec![200, 0xDE, 0xAD, 0xBE, 0xEF]);
    let mut reader = Reader::new(&bytes);
    assert_eq!(reader.u8(), Ok(200));
    assert_eq!(reader.u16(), Ok(0xDEAD));
    assert_eq!(reader.u32(), Err(DecodeError::MalformedPayload));
    assert_eq!(reader.u16(), Ok(0xBEEF));
    assert_eq!(reader.finish(), Ok(()));
}

#[test]
fn une_trame_complete_est_consommee_et_la_suite_reste_en_tampon() {
    let mut session = Session::new(7);
    let mut buffer = ClientMessage::Handshake { protocol_version: PROTOCOL_VERSION }.encode();
    let ping = ClientMessage::Ping { nonce: 9 }.encode();
    buffer.extend_from_slice(&ping[..3]);

    let reaction = next_reaction(&mut buffer, &mut session);

    assert_eq!(reaction, Some(Reaction::Reply(ServerMessage::HandshakeAccepted { session_id: 7 })));
    assert_eq!(buffer, ping[..3].to_vec());
    assert_eq!(next_reaction(&mut buffer, &mut session), None);
    assert_eq!(buffer, ping[..3].to_vec());

    buffer.extend_from_slice(&ping[3..]);
    assert_eq!(next_reaction(&mut buffer, &mut session), Some(Reaction::Reply(ServerMessage::Pong { nonce: 9 })));
    assert!(buffer.is_empty());
}

#[test]
fn une_trame_invalide_ferme_la_connexion() {
    let mut session = Session::new(1);
    let mut buffer = encode(0x7F, &[1, 2]);

    assert_eq!(next_reaction(&mut buffer, &mut session), Some(Reaction::Close));
    assert_eq!(buffer, encode(0x7F, &[1, 2]));
}

#[test]
fn un_ping_avant_la_poignee_de_main_ferme_sans_reponse() {
    let mut session = Session::new(1);
    let mut buffer = encode(OP_PING, &[0, 0, 0, 1]);

    assert_eq!(next_reaction(&mut buffer, &mut session), Some(Reaction::Close));
    assert!(buffer.is_empty());
}

#[test]
fn un_tampon_qui_deborde_sans_trame_complete_est_signale() {
    let mut buffer = vec![0_u8; MAX_FRAME_LEN - 2];
    assert!(take_in(&mut buffer, &[1, 2]));
    assert_eq!(buffer.len(), MAX_FRAME_LEN);
    assert_eq!(&buffer[MAX_FRAME_LEN - 2..], &[1, 2]);
    assert!(!take_in(&mut buffer, &[3]));
    assert_eq!(buffer.len(), MAX_FRAME_LEN + 1);
}
