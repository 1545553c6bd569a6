use tf_demo_parser::codes::Team;
use tf_demo_parser::events::{
    chat_entries, chat_text, death_entry, find_user, group_deaths, player_listing, round_entries,
    users_by_entity, ChatMessage, ChatMessageKind, DeathEvent, RoundInput,
};
use std::collections::BTreeMap;
use tf_demo_parser::session::CacheSummary;
use tf_demo_parser::timeline::TickBaseStats;
use tf_demo_parser::users::UserInfo;
use tf_demo_parser::voice::{
    codec_from_name, decode_steam_voice_sample, str_equal, voice_header_ok_bytes, MessageType, Voice, VoiceCodec,
    VoiceData, VoiceInit, VoiceMessage,
};

fn user(user_id: u16, entity_id: u32, name: &str, team: Team) -> UserInfo {
    UserInfo {
        name: name.to_string(),
        user_id,
        steam_id: format!("[U:1:{}]", user_id),
        entity_id,
        team,
    }
}

fn by_id(users: Vec<UserInfo>) -> BTreeMap<u16, UserInfo> {
    users.into_iter().map(|u| (u.user_id, u)).collect()
}

fn summary() -> CacheSummary {
    // cached window: server ticks 1000..1100, demo tick d is server tick d + 800
    CacheSummary {
        ticks: 100,
        start_tick: 1000,
        start_demo_tick: 200,
        tick_base: 800,
        tick_base_first: 800,
        stats: TickBaseStats::new(),
    }
}

#[test]
fn chat_text_keeps_the_color_codes() {
    assert_eq!(chat_text(ChatMessageKind::ChatAll, "", "hello"), "hello");
    assert_eq!(chat_text(ChatMessageKind::ChatAll, "bob", "hi"), "\x03bob\x01: hi");
    assert_eq!(chat_text(ChatMessageKind::ChatTeam, "bob", "hi"), "\x01(TEAM) \x03bob\x01: hi");
    assert_eq!(chat_text(ChatMessageKind::ChatAllDead, "bob", "hi"), "\x01*DEAD* \x03bob\x01: hi");
    assert_eq!(
        chat_text(ChatMessageKind::ChatTeamDead, "bob", "hi"),
        "\x01*DEAD* (TEAM) \x03bob\x01: hi"
    );
    assert_eq!(chat_text(ChatMessageKind::ChatAllSpec, "bob", "hi"), "\x01*SPEC* \x03bob\x01: hi");
    assert_eq!(chat_text(ChatMessageKind::NameChange, "bob", "x"), "\x03bob\x01: x");
    assert_eq!(chat_text(ChatMessageKind::ChatAll, "bob", "\x07FF0000red"), "\x03bob\x01: \x07FF0000red");
}

#[test]
fn chat_entries_keep_messages_in_the_window() {
    let msgs = vec![
        ChatMessage { tick: 150, kind: ChatMessageKind::ChatAll, client: Some(40), from: "a".into(), text: "early".into() },
        ChatMessage { tick: 210, kind: ChatMessageKind::ChatTeam, client: Some(41), from: "b".into(), text: "x".into() },
        ChatMessage { tick: 220, kind: ChatMessageKind::ChatAll, client: Some(99), from: "".into(), text: "server".into() },
        ChatMessage { tick: 230, kind: ChatMessageKind::ChatAll, client: None, from: "c".into(), text: "y".into() },
        ChatMessage { tick: 300, kind: ChatMessageKind::ChatAll, client: None, from: "d".into(), text: "late".into() },
    ];
    let rows: BTreeMap<u32, usize> = vec![(40, 0), (41, 1)].into_iter().collect();
    let entries = chat_entries(&summary(), &rows, &msgs);
    assert_eq!(entries.len(), 3);
    assert_eq!(entries[0].tick, 10);
    assert_eq!(entries[0].client_entity_id, Some(41));
    assert_eq!(entries[0].client_player_id, Some(1));
    assert_eq!(entries[0].raw_text, "\x01(TEAM) \x03b\x01: x");
    assert_eq!(entries[1].client_player_id, None);
    assert_eq!(entries[1].raw_text, "server");
    assert_eq!(entries[2].tick, 30);
    assert_eq!(entries[2].client_entity_id, None);
}

#[test]
fn deaths_need_a_known_victim_and_a_cached_tick() {
    let users = by_id(vec![user(1, 40, "a", Team::Red), user(2, 41, "b", Team::Blue)]);
    assert_eq!(find_user(&users, 2).unwrap().name, "b");
    assert!(find_user(&users, 3).is_none());
    let d = DeathEvent { tick: 250, victim: 1, killer: 2, assister: Some(9), weapon: "scattergun".into() };
    let e = death_entry(&summary(), &users, &d).unwrap();
    assert_eq!(e.tick, 50);
    assert_eq!(e.victim.name, "a");
    assert_eq!(e.killer.as_ref().unwrap().name, "b");
    assert!(e.assister.is_none());
    assert_eq!((e.victim_team, e.killer_team, e.assister_team), (2, 3, 0));
    assert_eq!(e.weapon, "scattergun");
    let unknown = DeathEvent { tick: 250, victim: 5, killer: 2, assister: None, weapon: "x".into() };
    assert!(death_entry(&summary(), &users, &unknown).is_none());
    let late = DeathEvent { tick: 900, victim: 1, killer: 2, assister: None, weapon: "x".into() };
    assert!(death_entry(&summary(), &users, &late).is_none());
}

#[test]
fn deaths_are_grouped_by_tick_in_order() {
    let users = by_id(vec![user(1, 40, "a", Team::Red), user(2, 41, "b", Team::Blue)]);
    let deaths = vec![
        DeathEvent { tick: 260, victim: 1, killer: 2, assister: None, weapon: "w1".into() },
        DeathEvent { tick: 250, victim: 2, killer: 1, assister: None, weapon: "w2".into() },
        DeathEvent { tick: 260, victim: 2, killer: 1, assister: None, weapon: "w3".into() },
        DeathEvent { tick: 100, victim: 2, killer: 1, assister: None, weapon: "w4".into() },
        DeathEvent { tick: 255, victim: 7, killer: 1, assister: None, weapon: "w5".into() },
    ];
    let groups = group_deaths(&summary(), &users, &deaths);
    let ticks: Vec<u32> = groups.keys().copied().collect();
    assert_eq!(ticks, vec![50, 60]);
    assert_eq!(groups[&50].len(), 1);
    assert_eq!(groups[&50][0].weapon, "w2");
    assert_eq!(groups[&50][0].tick, 50);
    let weapons: Vec<_> = groups[&60].iter().map(|d| d.weapon.clone()).collect();
    assert_eq!(weapons, vec!["w1", "w3"]);
}

#[test]
fn rounds_in_the_window_keep_their_position() {
    let rounds = vec![
        RoundInput { end_tick: 100, winner: Team::Red },
        RoundInput { end_tick: 280, winner: Team::Blue },
        RoundInput { end_tick: 299, winner: Team::Other },
    ];
    let entries = round_entries(&summary(), &rounds);
    assert_eq!(entries.len(), 2);
    assert_eq!((entries[0].source, entries[0].winner, entries[0].end_tick), (1, Team::Blue, 80));
    assert_eq!((entries[1].source, entries[1].end_tick), (2, 99));
}

#[test]
fn player_list_is_sorted_by_entity_and_prefers_match_users() {
    let ids = vec![70, 40, 55];
    let info = vec![
        Some(user(9, 70, "seen", Team::Red)),
        Some(user(8, 40, "old", Team::Red)),
        None,
    ];
    let users = by_id(vec![user(2, 40, "second", Team::Blue), user(1, 40, "first", Team::Blue), user(3, 12, "z", Team::Red)]);
    let by_entity = users_by_entity(&users);
    assert_eq!(by_entity.len(), 2);
    assert_eq!(by_entity[&40].name, "second");
    assert_eq!(by_entity[&12].name, "z");
    assert!(by_entity.get(&41).is_none());
    let rows: BTreeMap<u32, usize> = ids.iter().enumerate().map(|(row, &entity)| (entity, row)).collect();
    let list = player_listing(&ids, &rows, &info, &by_entity);
    assert_eq!(list.len(), 2);
    assert_eq!((list[0].id, list[0].entity, list[0].user.name.as_str()), (1, 40, "second"));
    assert_eq!((list[1].id, list[1].entity, list[1].user.name.as_str()), (0, 70, "seen"));
}

#[test]
fn codec_names() {
    assert_eq!(codec_from_name("steam"), Some(VoiceCodec::Steam));
    assert_eq!(codec_from_name("vaudio_speex"), Some(VoiceCodec::Speex));
    assert_eq!(codec_from_name("vaudio_celt"), Some(VoiceCodec::Celt));
    assert_eq!(codec_from_name("vaudio_celt_high"), Some(VoiceCodec::CeltHigh));
    assert_eq!(codec_from_name("vaudio_celt_hig"), None);
    assert_eq!(codec_from_name(""), None);
    assert!(str_equal("ä", "ä"));
    assert!(!str_equal("a", "b"));
}

#[test]
fn voice_collects_data_after_a_known_init() {
    assert!(Voice::does_handle(MessageType::VoiceInit));
    assert!(Voice::does_handle(MessageType::VoiceData));
    assert!(!Voice::does_handle(MessageType::Other));
    let mut v = Voice::new();
    // short data before any init is dropped without being read
    v.handle_message(&VoiceMessage::Data(VoiceData { client: 1, proximity: 0, length: 800, data: vec![] }), 1);
    v.handle_message(&VoiceMessage::Init(VoiceInit { codec: "unknown".into(), quality: 1, sampling_rate: 8000 }), 2);
    v.handle_message(&VoiceMessage::Data(VoiceData { client: 1, proximity: 0, length: 800, data: vec![] }), 3);
    assert_eq!(v.samples.len(), 0);
    let data = |len: u16| VoiceMessage::Data(VoiceData { client: 3, proximity: 0, length: len, data: vec![1, 2, 3, 4] });
    v.handle_message(&data(32), 5);
    assert_eq!(v.samples.len(), 0);
    v.handle_message(&VoiceMessage::Init(VoiceInit { codec: "opus".into(), quality: 5, sampling_rate: 24000 }), 6);
    v.handle_message(&data(32), 7);
    assert_eq!(v.samples.len(), 0);
    v.handle_message(&VoiceMessage::Init(VoiceInit { codec: "steam".into(), quality: 5, sampling_rate: 24000 }), 8);
    v.handle_message(&data(20), 9);
    v.handle_message(&VoiceMessage::Other, 10);
    let samples = v.into_output();
    assert_eq!(samples.len(), 1);
    assert_eq!(samples[0].tick, 9);
    assert_eq!(samples[0].codec, VoiceCodec::Steam);
    assert_eq!(samples[0].sampling_rate, 24000);
    assert_eq!(samples[0].client, 3);
    assert_eq!(samples[0].data, vec![1, 2]);
}

fn voice_packet(steam_id: u64, payload_type: u8, payload: &[u8]) -> Vec<u8> {
    let mut bytes = steam_id.to_le_bytes().to_vec();
    bytes.push(11);
    bytes.extend_from_slice(&24000u16.to_le_bytes());
    bytes.push(payload_type);
    bytes.extend_from_slice(&(payload.len() as u16).to_le_bytes());
    bytes.extend_from_slice(payload);
    bytes
}

#[test]
fn steam_voice_packets_decode_little_endian() {
    let id = 76561197960287930u64;
    let packet = decode_steam_voice_sample(&voice_packet(id, 6, &[9, 8, 7]));
    assert_eq!(packet.steam_id, id);
    assert_eq!(packet.sample_rate, 24000);
    assert_eq!(packet.data, vec![9, 8, 7]);
    let mut extra = voice_packet(id, 6, &[9, 8, 7]);
    extra.push(1);
    assert_eq!(decode_steam_voice_sample(&extra).data, vec![9, 8, 7]);
    let other = decode_steam_voice_sample(&voice_packet(5, 4, &[1, 2]));
    assert_eq!(other.steam_id, 5);
    assert!(other.data.is_empty());
}

#[test]
fn sender_is_a_steam_id_when_the_bits_make_one() {
    let id = 76561197960287930u64;
    let packet = decode_steam_voice_sample(&voice_packet(id, 6, &[]));
    let sender = packet.sender().unwrap();
    assert_eq!(u64::from(sender), id);
    let bad = decode_steam_voice_sample(&voice_packet(0xff00_0000_0000_0000, 6, &[]));
    assert!(bad.sender().is_none());
    let bad_type = decode_steam_voice_sample(&voice_packet(0x00f0_0000_0000_0000, 6, &[]));
    assert!(bad_type.sender().is_none());
}

#[test]
fn decodable_voice_packets_are_recognised() {
    assert!(voice_header_ok_bytes(&voice_packet(1, 6, &[1, 2, 3])));
    assert!(voice_header_ok_bytes(&voice_packet(1, 4, &[])));
    let mut short = voice_packet(1, 6, &[1, 2, 3]);
    short.pop();
    assert!(!voice_header_ok_bytes(&short));
    let mut wrong_type = voice_packet(1, 6, &[]);
    wrong_type[8] = 10;
    assert!(!voice_header_ok_bytes(&wrong_type));
    assert!(!voice_header_ok_bytes(&[0u8; 13]));
    let mut long = voice_packet(1, 6, &[]);
    long[12] = 0;
    long[13] = 1;
    long.extend(std::iter::repeat(7u8).take(255));
    assert!(!voice_header_ok_bytes(&long));
    long.push(7);
    assert!(voice_header_ok_bytes(&long));
    assert_eq!(decode_steam_voice_sample(&long).data.len(), 256);
}
