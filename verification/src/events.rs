//! Events of the match (chat, deaths, rounds) and the player list, placed on the
//! cached timeline.

use vstd::prelude::*;
use crate::codes::{match_team_to_id, team_code, Team};
use crate::session::CacheSummary;
use crate::timeline::{event_tick, event_tick_of, is_tick_base};
use crate::users::{duplicate_user, UserInfo};
use crate::keys::{
    indexes, lemma_entity_keys_increase, lemma_entity_keys_ordered, lemma_user_keys_increase,
    lemma_user_keys_ordered,
};
use std::collections::BTreeMap;

verus! {

/// The kinds of chat message.
#[derive(Clone, Copy, Debug, PartialEq, Eq, Structural)]
pub enum ChatMessageKind {
    ChatAll,
    ChatTeam,
    ChatAllDead,
    ChatTeamDead,
    ChatAllSpec,
    NameChange,
    Empty,
}

/// The color-coded prefix that the game shows before a sender's name.
pub open spec fn chat_prefix(kind: ChatMessageKind) -> Seq<char> {
    match kind {
        ChatMessageKind::ChatTeam => "\x01(TEAM) \x03"@,
        ChatMessageKind::ChatAllDead => "\x01*DEAD* \x03"@,
        ChatMessageKind::ChatTeamDead => "\x01*DEAD* (TEAM) \x03"@,
        ChatMessageKind::ChatAllSpec => "\x01*SPEC* \x03"@,
        _ => "\x03"@,
    }
}

/// The text of a chat line as the game shows it, color codes included: the text
/// alone when there is no sender, else the prefix of its kind, the sender, `\x01: `
/// and the text.
pub open spec fn chat_line(kind: ChatMessageKind, from: Seq<char>, text: Seq<char>) -> Seq<char> {
    if from.len() == 0 {
        text
    } else {
        chat_prefix(kind) + from + "\x01: "@ + text
    }
}

/// Builds `chat_line`.
pub fn chat_text(kind: ChatMessageKind, from: &str, text: &str) -> (line: String)
    ensures
        line@ == chat_line(kind, from@, text@),
{
    if from.is_empty() {
        return text.to_owned();
    }
    let prefix: &str = match kind {
        ChatMessageKind::ChatTeam => "\x01(TEAM) \x03",
        ChatMessageKind::ChatAllDead => "\x01*DEAD* \x03",
        ChatMessageKind::ChatTeamDead => "\x01*DEAD* (TEAM) \x03",
        ChatMessageKind::ChatAllSpec => "\x01*SPEC* \x03",
        _ => "\x03",
    };
    let mut line = prefix.to_owned();
    line.append(from);
    line.append("\x01: ");
    line.append(text);
    line
}

/// A chat message of the match.
#[derive(Debug)]
pub struct ChatMessage {
    pub tick: u32,
    pub kind: ChatMessageKind,
    /// The entity of the sender, if known.
    pub client: Option<u32>,
    pub from: String,
    pub text: String,
}

/// A chat message placed on the cached timeline.
#[derive(Debug)]
pub struct ChatEntry {
    pub tick: u32,
    pub kind: ChatMessageKind,
    pub client_entity_id: Option<u32>,
    /// The player row of the sender, if it has one.
    pub client_player_id: Option<u32>,
    pub raw_text: String,
}

/// The chat entry of a message: kept when its tick falls in the cached window, with
/// the sender's player row and the text as the game shows it.
pub open spec fn chat_entry_of(
    summary: CacheSummary,
    rows: Map<u32, usize>,
    msg: ChatMessage,
) -> Option<(u32, Option<u32>, Seq<char>)> {
    match event_tick(summary.tick_base, summary.start_tick, summary.ticks, msg.tick) {
        None => None,
        Some(t) => Some(
            (
                t,
                match msg.client {
                    Some(e) => if rows.contains_key(e) {
                        Some(rows[e] as u32)
                    } else {
                        None
                    },
                    None => None,
                },
                chat_line(msg.kind, msg.from@, msg.text@),
            ),
        ),
    }
}

/// The entries of the messages that fall in the cached window, in message order.
pub open spec fn chat_entries_of(summary: CacheSummary, rows: Map<u32, usize>, msgs: Seq<ChatMessage>) -> Seq<
    (ChatMessage, u32, Option<u32>, Seq<char>),
>
    decreases msgs.len(),
{
    if msgs.len() == 0 {
        Seq::empty()
    } else {
        let rest = chat_entries_of(summary, rows, msgs.drop_last());
        match chat_entry_of(summary, rows, msgs.last()) {
            Some((t, p, line)) => rest.push((msgs.last(), t, p, line)),
            None => rest,
        }
    }
}

/// Whether a message's tick lands in the cached window.
pub open spec fn in_window(summary: CacheSummary, m: ChatMessage) -> bool {
    event_tick(summary.tick_base, summary.start_tick, summary.ticks, m.tick) is Some
}

/// Law: the chat list keeps exactly the messages whose tick lands in the cached
/// window, whatever their kind, in message order; each entry is placed at its
/// message's tick, carries the sender's player row when the sender has one, and the
/// line as the game shows it.
pub proof fn lemma_chat_entries_in_window(
    summary: CacheSummary,
    rows: Map<u32, usize>,
    msgs: Seq<ChatMessage>,
)
    ensures
        chat_entries_of(summary, rows, msgs).len() == msgs.filter(
            |m: ChatMessage| in_window(summary, m),
        ).len(),
        forall|i: int|
            0 <= i < chat_entries_of(summary, rows, msgs).len() ==> {
                let e = #[trigger] chat_entries_of(summary, rows, msgs)[i];
                &&& e.0 == msgs.filter(|m: ChatMessage| in_window(summary, m))[i]
                &&& Some(e.1) == event_tick(
                    summary.tick_base,
                    summary.start_tick,
                    summary.ticks,
                    e.0.tick,
                )
                &&& e.2 == match e.0.client {
                    Some(c) => if rows.contains_key(c) {
                        Some(rows[c] as u32)
                    } else {
                        None
                    },
                    None => None,
                }
                &&& e.3 == chat_line(e.0.kind, e.0.from@, e.0.text@)
            },
    decreases msgs.len(),
{
    let pred = |m: ChatMessage| in_window(summary, m);
    if msgs.len() == 0 {
        reveal(Seq::filter);
    } else {
        let rest = msgs.drop_last();
        lemma_chat_entries_in_window(summary, rows, rest);
        assert(rest.push(msgs.last()) =~= msgs);
        rest.lemma_filter_push(msgs.last(), pred);
    }
}

/// Whether an entry is the one built for a message.
pub open spec fn entry_matches(e: ChatEntry, m: (ChatMessage, u32, Option<u32>, Seq<char>)) -> bool {
    &&& e.tick == m.1
    &&& e.kind == m.0.kind
    &&& e.client_entity_id == m.0.client
    &&& e.client_player_id == m.2
    &&& e.raw_text@ == m.3
}

/// The chat entries of the messages that fall in the cached window (see
/// `chat_entry_of`), in message order, with the player rows keyed by entity.
pub fn chat_entries(
    summary: &CacheSummary,
    player_rows: &BTreeMap<u32, usize>,
    msgs: &Vec<ChatMessage>,
) -> (entries: Vec<ChatEntry>)
    requires
        is_tick_base(summary.tick_base),
    ensures
        entries@.len() == chat_entries_of(*summary, player_rows@, msgs@).len(),
        entries@.len() == msgs@.filter(|m: ChatMessage| in_window(*summary, m)).len(),
        forall|i: int|
            0 <= i < entries@.len() ==> entry_matches(
                #[trigger] entries@[i],
                chat_entries_of(*summary, player_rows@, msgs@)[i],
            ),
{
    let mut entries: Vec<ChatEntry> = Vec::new();
    let mut k: usize = 0;
    while k < msgs.len()
        invariant
            k <= msgs@.len(),
            is_tick_base(summary.tick_base),
            entries@.len() == chat_entries_of(*summary, player_rows@, msgs@.take(k as int)).len(),
            forall|i: int|
                0 <= i < entries@.len() ==> entry_matches(
                    #[trigger] entries@[i],
                    chat_entries_of(*summary, player_rows@, msgs@.take(k as int))[i],
                ),
        decreases msgs@.len() - k,
    {
        let ghost before = msgs@.take(k as int);
        proof {
            lemma_entity_keys_ordered();
            assert(msgs@.take(k + 1).drop_last() =~= before);
        }
        let msg = &msgs[k];
        match event_tick_of(summary.tick_base, summary.start_tick, summary.ticks, msg.tick) {
            Some(tick) => {
                let client_player_id = match msg.client {
                    Some(entity) => match player_rows.get(&entity) {
                        Some(i) => Some(*i as u32),
                        None => None,
                    },
                    None => None,
                };
                let raw_text = chat_text(msg.kind, msg.from.as_str(), msg.text.as_str());
                entries.push(
                    ChatEntry {
                        tick,
                        kind: msg.kind,
                        client_entity_id: msg.client,
                        client_player_id,
                        raw_text,
                    },
                );
            },
            None => {},
        }
        k = k + 1;
    }
    proof {
        assert(msgs@.take(msgs@.len() as int) =~= msgs@);
        lemma_chat_entries_in_window(*summary, player_rows@, msgs@);
    }
    entries
}

/// The user with user id `id` in the users of the match, keyed by user id.
pub open spec fn user_by_id(users: Map<u16, UserInfo>, id: u16) -> Option<UserInfo> {
    if users.contains_key(id) {
        Some(users[id])
    } else {
        None
    }
}

/// Finds `user_by_id`.
pub fn find_user(users: &BTreeMap<u16, UserInfo>, id: u16) -> (r: Option<UserInfo>)
    ensures
        r == user_by_id(users@, id),
{
    proof {
        lemma_user_keys_ordered();
    }
    match users.get(&id) {
        Some(u) => Some(u.duplicate()),
        None => None,
    }
}

/// A death of the match.
#[derive(Debug)]
pub struct DeathEvent {
    pub tick: u32,
    pub victim: u16,
    pub killer: u16,
    pub assister: Option<u16>,
    pub weapon: String,
}

/// A death placed on the cached timeline, with the users involved.
#[derive(Debug)]
pub struct CachedDeath {
    pub tick: u32,
    pub victim: UserInfo,
    pub assister: Option<UserInfo>,
    pub killer: Option<UserInfo>,
    pub weapon: String,
    pub victim_team: u8,
    pub assister_team: u8,
    pub killer_team: u8,
}

/// The team code of an optional user, 0 when there is none.
pub open spec fn user_team_code(u: Option<UserInfo>) -> u8 {
    match u {
        Some(u) => team_code(u.team),
        None => 0,
    }
}

/// The cached death of a death: kept when its tick falls in the cached window and
/// its victim is a known user.
pub open spec fn death_entry_of(
    summary: CacheSummary,
    users: Map<u16, UserInfo>,
    death: DeathEvent,
) -> Option<CachedDeath> {
    match event_tick(summary.tick_base, summary.start_tick, summary.ticks, death.tick) {
        None => None,
        Some(t) => match user_by_id(users, death.victim) {
            None => None,
            Some(victim) => {
                let killer = user_by_id(users, death.killer);
                let assister = match death.assister {
                    Some(a) => user_by_id(users, a),
                    None => None,
                };
                Some(
                    CachedDeath {
                        tick: t,
                        victim,
                        assister,
                        killer,
                        weapon: death.weapon,
                        victim_team: team_code(victim.team),
                        assister_team: user_team_code(assister),
                        killer_team: user_team_code(killer),
                    },
                )
            },
        },
    }
}

/// Law: a death is kept exactly when its tick lands in the cached window and its
/// victim is a known user; then it holds the victim, the killer and the assister
/// that are known users, with their team codes (0 for one that is missing).
pub proof fn lemma_death_entry_users(
    summary: CacheSummary,
    users: Map<u16, UserInfo>,
    death: DeathEvent,
)
    ensures
        death_entry_of(summary, users, death) is Some <==> (event_tick(
            summary.tick_base,
            summary.start_tick,
            summary.ticks,
            death.tick,
        ) is Some && users.contains_key(death.victim)),
        death_entry_of(summary, users, death) matches Some(d) ==> {
            &&& Some(d.tick) == event_tick(
                summary.tick_base,
                summary.start_tick,
                summary.ticks,
                death.tick,
            )
            &&& d.victim == users[death.victim]
            &&& d.victim_team == team_code(users[death.victim].team)
            &&& d.weapon == death.weapon
            &&& users.contains_key(death.killer) ==> d.killer == Some(users[death.killer])
                && d.killer_team == team_code(users[death.killer].team)
            &&& !users.contains_key(death.killer) ==> d.killer is None && d.killer_team == 0
            &&& match death.assister {
                Some(a) => if users.contains_key(a) {
                    d.assister == Some(users[a]) && d.assister_team == team_code(users[a].team)
                } else {
                    d.assister is None && d.assister_team == 0
                },
                None => d.assister is None && d.assister_team == 0,
            }
        },
{
}

/// Computes `death_entry_of`.
pub fn death_entry(summary: &CacheSummary, users: &BTreeMap<u16, UserInfo>, death: &DeathEvent) -> (r: Option<
    CachedDeath,
>)
    requires
        is_tick_base(summary.tick_base),
    ensures
        r == death_entry_of(*summary, users@, *death),
{
    let tick = match event_tick_of(summary.tick_base, summary.start_tick, summary.ticks, death.tick) {
        Some(t) => t,
        None => return None,
    };
    let victim = match find_user(users, death.victim) {
        Some(v) => v,
        None => return None,
    };
    let killer = find_user(users, death.killer);
    let assister = match death.assister {
        Some(a) => find_user(users, a),
        None => None,
    };
    let victim_team = match_team_to_id(victim.team);
    let assister_team = match &assister {
        Some(u) => match_team_to_id(u.team),
        None => 0,
    };
    let killer_team = match &killer {
        Some(u) => match_team_to_id(u.team),
        None => 0,
    };
    Some(
        CachedDeath {
            tick,
            victim,
            assister,
            killer,
            weapon: death.weapon.clone(),
            victim_team,
            assister_team,
            killer_team,
        },
    )
}

/// The cached deaths of `deaths` (in order) that land at tick `tick`.
pub open spec fn deaths_at(
    summary: CacheSummary,
    users: Map<u16, UserInfo>,
    deaths: Seq<DeathEvent>,
    tick: u32,
) -> Seq<CachedDeath>
    decreases deaths.len(),
{
    if deaths.len() == 0 {
        Seq::empty()
    } else {
        let rest = deaths_at(summary, users, deaths.drop_last(), tick);
        match death_entry_of(summary, users, deaths.last()) {
            Some(d) => if d.tick == tick {
                rest.push(d)
            } else {
                rest
            },
            None => rest,
        }
    }
}

/// The cached deaths grouped by tick: a tick is a key exactly when some death lands
/// there, and it holds the deaths at that tick in match order.
pub open spec fn groups_ok(
    groups: Map<u32, Vec<CachedDeath>>,
    summary: CacheSummary,
    users: Map<u16, UserInfo>,
    deaths: Seq<DeathEvent>,
) -> bool {
    forall|t: u32|
        #[trigger] groups.contains_key(t) == (deaths_at(summary, users, deaths, t).len() > 0)
            && (groups.contains_key(t) ==> groups[t]@ == deaths_at(summary, users, deaths, t))
}

/// Groups the cached deaths of the match by tick (see `groups_ok`); the map walks
/// its ticks in increasing order.
pub fn group_deaths(
    summary: &CacheSummary,
    users: &BTreeMap<u16, UserInfo>,
    deaths: &Vec<DeathEvent>,
) -> (groups: BTreeMap<u32, Vec<CachedDeath>>)
    requires
        is_tick_base(summary.tick_base),
    ensures
        groups_ok(groups@, *summary, users@, deaths@),
{
    proof {
        lemma_entity_keys_ordered();
    }
    let mut groups: BTreeMap<u32, Vec<CachedDeath>> = BTreeMap::new();
    let mut k: usize = 0;
    proof {
        assert forall|t: u32| #[trigger] groups@.contains_key(t) == (deaths_at(
            *summary,
            users@,
            deaths@.take(0),
            t,
        ).len() > 0) by {
            assert(deaths@.take(0).len() == 0);
        }
    }
    while k < deaths.len()
        invariant
            k <= deaths@.len(),
            is_tick_base(summary.tick_base),
            groups_ok(groups@, *summary, users@, deaths@.take(k as int)),
        decreases deaths@.len() - k,
    {
        let ghost before = groups@;
        let ghost prefix = deaths@.take(k as int);
        let ghost next = deaths@.take(k + 1);
        proof {
            lemma_entity_keys_ordered();
            assert(next.drop_last() =~= prefix);
            assert(next.last() == deaths@[k as int]);
        }
        match death_entry(summary, users, &deaths[k]) {
            None => {
                proof {
                    assert forall|t: u32| #[trigger] groups@.contains_key(t) == (deaths_at(
                        *summary,
                        users@,
                        next,
                        t,
                    ).len() > 0) && (groups@.contains_key(t) ==> groups@[t]@ == deaths_at(
                        *summary,
                        users@,
                        next,
                        t,
                    )) by {
                        assert(deaths_at(*summary, users@, next, t) == deaths_at(
                            *summary,
                            users@,
                            prefix,
                            t,
                        ));
                    }
                }
            },
            Some(entry) => {
                let t = entry.tick;
                let ghost e = entry;
                let mut bucket = match groups.remove(&t) {
                    Some(b) => b,
                    None => Vec::new(),
                };
                proof {
                    assert(bucket@ == deaths_at(*summary, users@, prefix, t));
                }
                bucket.push(entry);
                groups.insert(t, bucket);
                proof {
                    assert(groups@ == before.insert(t, groups@[t]));
                    assert forall|u: u32| #[trigger] groups@.contains_key(u) == (deaths_at(
                        *summary,
                        users@,
                        next,
                        u,
                    ).len() > 0) && (groups@.contains_key(u) ==> groups@[u]@ == deaths_at(
                        *summary,
                        users@,
                        next,
                        u,
                    )) by {
                        if u != t {
                            assert(deaths_at(*summary, users@, next, u) == deaths_at(
                                *summary,
                                users@,
                                prefix,
                                u,
                            ));
                            assert(before.contains_key(u) == groups@.contains_key(u));
                        } else {
                            assert(deaths_at(*summary, users@, next, t) == deaths_at(
                                *summary,
                                users@,
                                prefix,
                                t,
                            ).push(e));
                        }
                    }
                }
            },
        }
        k = k + 1;
    }
    proof {
        assert(deaths@.take(deaths@.len() as int) =~= deaths@);
    }
    groups
}

/// A round of the match.
#[derive(Clone, Copy, Debug, PartialEq, Eq, Structural)]
pub struct RoundInput {
    pub end_tick: u32,
    pub winner: Team,
}

/// A round placed on the cached timeline; `source` is its position among the rounds.
#[derive(Clone, Copy, Debug, PartialEq, Eq, Structural)]
pub struct RoundEntry {
    pub source: usize,
    pub winner: Team,
    pub end_tick: u32,
}

/// The entries of the first `k` rounds whose end falls in the cached window, in order.
pub open spec fn round_entries_of(summary: CacheSummary, rounds: Seq<RoundInput>, k: int) -> Seq<
    RoundEntry,
>
    decreases k,
{
    if k <= 0 {
        Seq::empty()
    } else {
        let rest = round_entries_of(summary, rounds, k - 1);
        match event_tick(summary.tick_base, summary.start_tick, summary.ticks, rounds[k - 1].end_tick) {
            Some(t) => rest.push(
                RoundEntry { source: (k - 1) as usize, winner: rounds[k - 1].winner, end_tick: t },
            ),
            None => rest,
        }
    }
}

/// The rounds whose end falls in the cached window, in order (see `round_entries_of`).
pub fn round_entries(summary: &CacheSummary, rounds: &Vec<RoundInput>) -> (entries: Vec<RoundEntry>)
    requires
        is_tick_base(summary.tick_base),
    ensures
        entries@ == round_entries_of(*summary, rounds@, rounds@.len() as int),
{
    let mut entries: Vec<RoundEntry> = Vec::new();
    let mut k: usize = 0;
    while k < rounds.len()
        invariant
            k <= rounds@.len(),
            is_tick_base(summary.tick_base),
            entries@ == round_entries_of(*summary, rounds@, k as int),
        decreases rounds@.len() - k,
    {
        let round = rounds[k];
        match event_tick_of(summary.tick_base, summary.start_tick, summary.ticks, round.end_tick) {
            Some(t) => {
                entries.push(RoundEntry { source: k, winner: round.winner, end_tick: t });
            },
            None => {},
        }
        k = k + 1;
    }
    entries
}

/// The user at position `j` of the users taken in the order of the keys `ks`.
pub open spec fn user_at(users: Map<u16, UserInfo>, ks: Seq<u16>, j: int) -> UserInfo {
    users[ks[j]]
}

/// The users keyed by entity, from the users keyed by user id: each entity that some
/// user has maps to the user of highest user id among those that have it.
pub open spec fn entity_users_ok(m: Map<u32, UserInfo>, users: Map<u16, UserInfo>) -> bool {
    &&& forall|e: u32|
        #[trigger] m.contains_key(e) <==> exists|k: u16|
            #[trigger] users.contains_key(k) && users[k].entity_id == e
    &&& forall|e: u32|
        #[trigger] m.contains_key(e) ==> exists|k: u16|
            {
                &&& #[trigger] users.contains_key(k)
                &&& users[k] == m[e]
                &&& users[k].entity_id == e
                &&& forall|h: u16| #[trigger] users.contains_key(h) && k < h ==> users[h].entity_id != e
            }
}

/// The users keyed by entity after taking the first `n` users in the order of `ks`:
/// the entities among them, each mapped to the last of them that has it.
pub open spec fn entity_prefix_ok(
    m: Map<u32, UserInfo>,
    users: Map<u16, UserInfo>,
    ks: Seq<u16>,
    n: int,
) -> bool {
    &&& forall|e: u32|
        #[trigger] m.contains_key(e) <==> exists|j: int|
            0 <= j < n && #[trigger] user_at(users, ks, j).entity_id == e
    &&& forall|e: u32|
        #[trigger] m.contains_key(e) ==> exists|j: int|
            {
                &&& 0 <= j < n
                &&& #[trigger] user_at(users, ks, j) == m[e]
                &&& user_at(users, ks, j).entity_id == e
                &&& forall|q: int| j < q < n ==> #[trigger] user_at(users, ks, q).entity_id != e
            }
}

#[verifier::spinoff_prover]
#[verifier::rlimit(40)]
proof fn lemma_entity_prefix_step(m: Map<u32, UserInfo>, users: Map<u16, UserInfo>, ks: Seq<u16>, n: int)
    requires
        0 <= n,
        entity_prefix_ok(m, users, ks, n),
    ensures
        entity_prefix_ok(
            m.insert(user_at(users, ks, n).entity_id, user_at(users, ks, n)),
            users,
            ks,
            n + 1,
        ),
{
    let f = user_at(users, ks, n).entity_id;
    let m2 = m.insert(f, user_at(users, ks, n));
    assert forall|e: u32| #[trigger] m2.contains_key(e) <==> exists|j: int|
        0 <= j < n + 1 && #[trigger] user_at(users, ks, j).entity_id == e by {
        if e != f {
            if exists|j: int| 0 <= j < n + 1 && #[trigger] user_at(users, ks, j).entity_id == e {
                let j = choose|j: int| 0 <= j < n + 1 && #[trigger] user_at(users, ks, j).entity_id == e;
                assert(j < n);
            }
        } else {
            assert(user_at(users, ks, n).entity_id == e);
        }
    }
    assert forall|e: u32| #[trigger] m2.contains_key(e) implies exists|j: int|
        {
            &&& 0 <= j < n + 1
            &&& #[trigger] user_at(users, ks, j) == m2[e]
            &&& user_at(users, ks, j).entity_id == e
            &&& forall|q: int| j < q < n + 1 ==> #[trigger] user_at(users, ks, q).entity_id != e
        } by {
        if e != f {
            assert(m.contains_key(e));
            let j = choose|j: int|
                {
                    &&& 0 <= j < n
                    &&& #[trigger] user_at(users, ks, j) == m[e]
                    &&& user_at(users, ks, j).entity_id == e
                    &&& forall|q: int| j < q < n ==> #[trigger] user_at(users, ks, q).entity_id != e
                };
            assert(user_at(users, ks, j) == m2[e]);
        } else {
            assert(user_at(users, ks, n) == m2[e]);
        }
    }
}

proof fn lemma_entity_prefix_done(m: Map<u32, UserInfo>, users: Map<u16, UserInfo>, ks: Seq<u16>)
    requires
        entity_prefix_ok(m, users, ks, ks.len() as int),
        vstd::std_specs::btree::increasing_seq(ks),
        ks.to_set() == users.dom(),
    ensures
        entity_users_ok(m, users),
{
    lemma_user_keys_ordered();
    assert forall|e: u32| #[trigger] m.contains_key(e) <==> exists|k: u16|
        #[trigger] users.contains_key(k) && users[k].entity_id == e by {
        if m.contains_key(e) {
            let j = choose|j: int| 0 <= j < ks.len() && #[trigger] user_at(users, ks, j).entity_id == e;
            assert(ks.to_set().contains(ks[j]));
            assert(users.contains_key(ks[j]));
        }
        if exists|k: u16| #[trigger] users.contains_key(k) && users[k].entity_id == e {
            let k = choose|k: u16| #[trigger] users.contains_key(k) && users[k].entity_id == e;
            assert(ks.to_set().contains(k));
            let j = choose|j: int| 0 <= j < ks.len() && ks[j] == k;
            assert(user_at(users, ks, j).entity_id == e);
        }
    }
    assert forall|e: u32| #[trigger] m.contains_key(e) implies exists|k: u16|
        {
            &&& #[trigger] users.contains_key(k)
            &&& users[k] == m[e]
            &&& users[k].entity_id == e
            &&& forall|h: u16| #[trigger] users.contains_key(h) && k < h ==> users[h].entity_id != e
        } by {
        let j = choose|j: int|
            {
                &&& 0 <= j < ks.len()
                &&& #[trigger] user_at(users, ks, j) == m[e]
                &&& user_at(users, ks, j).entity_id == e
                &&& forall|q: int| j < q < ks.len() ==> #[trigger] user_at(users, ks, q).entity_id != e
            };
        let k = ks[j];
        assert(ks.to_set().contains(k));
        assert forall|h: u16| #[trigger] users.contains_key(h) && k < h implies users[h].entity_id
            != e by {
            assert(ks.to_set().contains(h));
            let q = choose|q: int| 0 <= q < ks.len() && ks[q] == h;
            if q < j {
                lemma_user_keys_increase(ks, q, j);
            }
            assert(q != j);
            assert(user_at(users, ks, q).entity_id != e);
        }
    }
}

/// Keys the users by entity (see `entity_users_ok`), walking them in user id order so
/// that a later user of an entity replaces an earlier one.
pub fn users_by_entity(users: &BTreeMap<u16, UserInfo>) -> (m: BTreeMap<u32, UserInfo>)
    ensures
        entity_users_ok(m@, users@),
{
    proof {
        lemma_user_keys_ordered();
        lemma_entity_keys_ordered();
    }
    let mut m: BTreeMap<u32, UserInfo> = BTreeMap::new();
    let values = users.values();
    let ghost ks: Seq<u16> = choose|ks: Seq<u16>|
        {
            &&& vstd::std_specs::btree::increasing_seq(ks)
            &&& ks.to_set() == users@.dom()
            &&& ks.no_duplicates()
            &&& vstd::std_specs::iter::IteratorSpec::remaining(&values) == ks.map(
                |i: int, k: u16| &users@[k],
            )
        };
    for u in it: values
        invariant
            vstd::std_specs::btree::increasing_seq(ks),
            ks.to_set() == users@.dom(),
            it.seq() == ks.map(|i: int, k: u16| &users@[k]),
            entity_prefix_ok(m@, users@, ks, it.index()),
    {
        proof {
            lemma_entity_keys_ordered();
            assert(*u == user_at(users@, ks, it.index()));
            lemma_entity_prefix_step(m@, users@, ks, it.index());
        }
        m.insert(u.entity_id, u.duplicate());
    }
    proof {
        lemma_entity_prefix_done(m@, users@, ks);
    }
    m
}

/// A player of the player list: its row, entity and user.
#[derive(Debug)]
pub struct PlayerListing {
    pub id: usize,
    pub entity: u32,
    pub user: UserInfo,
}

/// The user shown for player row `i`: the user of its entity in the match state
/// (keyed by entity, see `users_by_entity`), else the last user info seen for the row.
pub open spec fn listed_user(
    ids: Seq<u32>,
    info: Seq<Option<UserInfo>>,
    users: Map<u32, UserInfo>,
    i: int,
) -> Option<UserInfo> {
    if users.contains_key(ids[i]) {
        Some(users[ids[i]])
    } else {
        info[i]
    }
}

/// The player list: one entry per player row that has a user, in increasing entity order.
pub open spec fn listing_ok(
    out: Seq<PlayerListing>,
    ids: Seq<u32>,
    info: Seq<Option<UserInfo>>,
    users: Map<u32, UserInfo>,
) -> bool {
    &&& forall|k: int|
        0 <= k < out.len() ==> {
            &&& #[trigger] out[k].id < ids.len()
            &&& out[k].entity == ids[out[k].id as int]
            &&& listed_user(ids, info, users, out[k].id as int) == Some(out[k].user)
        }
    &&& forall|a: int, b: int| 0 <= a < b < out.len() ==> out[a].entity < out[b].entity
    &&& forall|i: int|
        0 <= i < ids.len() && (#[trigger] listed_user(ids, info, users, i)) is Some ==> exists|
            k: int,
        |
            0 <= k < out.len() && out[k].id == i
}

/// Whether entity `e` is among the first `n` keys of `ks`.
pub open spec fn key_seen(ks: Seq<u32>, n: int, e: u32) -> bool {
    exists|j: int| 0 <= j < n && ks[j] == e
}

/// The player list (see `listing_ok`), from the entity of each row, the row of each
/// entity, the last user info seen for each row, and the users of the match state
/// keyed by entity. The rows are walked in increasing entity order.
pub fn player_listing(
    player_ids: &Vec<u32>,
    player_rows: &BTreeMap<u32, usize>,
    player_info: &Vec<Option<UserInfo>>,
    users: &BTreeMap<u32, UserInfo>,
) -> (out: Vec<PlayerListing>)
    requires
        crate::session::distinct(player_ids@),
        indexes(player_rows@, player_ids@),
        player_info@.len() == player_ids@.len(),
    ensures
        listing_ok(out@, player_ids@, player_info@, users@),
{
    proof {
        lemma_entity_keys_ordered();
    }
    let ghost ids = player_ids@;
    let ghost info = player_info@;
    let mut out: Vec<PlayerListing> = Vec::new();
    let rows_iter = player_rows.iter();
    let ghost pairs = vstd::std_specs::iter::IteratorSpec::remaining(&rows_iter);
    let ghost ks = pairs.map_values(|kv: (&u32, &usize)| *kv.0);
    proof {
        assert forall|e: u32| #[trigger] player_rows@.contains_key(e) implies key_seen(
            ks,
            pairs.len() as int,
            e,
        ) by {
            assert(pairs.contains((&e, &player_rows@[e])));
            let j = choose|j: int| 0 <= j < pairs.len() && pairs[j] == (&e, &player_rows@[e]);
            assert(ks[j] == e);
        }
    }
    for kv in it: rows_iter
        invariant
            ids == player_ids@,
            info == player_info@,
            info.len() == ids.len(),
            crate::session::distinct(ids),
            indexes(player_rows@, ids),
            it.seq() == pairs,
            ks == pairs.map_values(|kv: (&u32, &usize)| *kv.0),
            vstd::std_specs::btree::increasing_seq(ks),
            forall|j: int|
                0 <= j < pairs.len() ==> #[trigger] player_rows@.contains_key(*pairs[j].0)
                    && player_rows@[*pairs[j].0] == *pairs[j].1,
            forall|e: u32|
                #[trigger] player_rows@.contains_key(e) ==> key_seen(ks, pairs.len() as int, e),
            forall|k: int|
                0 <= k < out@.len() ==> {
                    &&& #[trigger] out@[k].id < ids.len()
                    &&& out@[k].entity == ids[out@[k].id as int]
                    &&& listed_user(ids, info, users@, out@[k].id as int) == Some(out@[k].user)
                    &&& key_seen(ks, it.index(), out@[k].entity)
                },
            forall|a: int, b: int| 0 <= a < b < out@.len() ==> out@[a].entity < out@[b].entity,
            forall|i: int|
                0 <= i < ids.len() && (#[trigger] listed_user(ids, info, users@, i)) is Some
                    && key_seen(ks, it.index(), ids[i]) ==> exists|k: int|
                    0 <= k < out@.len() && out@[k].id == i,
    {
        let ghost n = it.index();
        let ghost before = out@;
        let (entity_ref, row_ref) = kv;
        let entity = *entity_ref;
        let row = *row_ref;
        proof {
            lemma_entity_keys_ordered();
            assert(ks[n] == entity);
            assert(player_rows@.contains_key(*pairs[n].0));
            assert(row < ids.len() && ids[row as int] == entity);
        }
        let user = match users.get(&entity) {
            Some(u) => Some(u.duplicate()),
            None => duplicate_user(&player_info[row]),
        };
        match user {
            Some(u) => {
                out.push(PlayerListing { id: row, entity, user: u });
            },
            None => {},
        }
        proof {
            assert forall|k: int| 0 <= k < before.len() implies out@[k].entity < entity by {
                assert(out@[k] == before[k]);
                assert(before[k].id < ids.len());
                assert(key_seen(ks, n, before[k].entity));
                let j = choose|j: int| 0 <= j < n && ks[j] == before[k].entity;
                lemma_entity_keys_increase(ks, j, n);
            }
            assert forall|k: int| 0 <= k < out@.len() implies {
                &&& #[trigger] out@[k].id < ids.len()
                &&& out@[k].entity == ids[out@[k].id as int]
                &&& listed_user(ids, info, users@, out@[k].id as int) == Some(out@[k].user)
                &&& key_seen(ks, n + 1, out@[k].entity)
            } by {
                if k < before.len() {
                    assert(out@[k] == before[k]);
                    assert(before[k].id < ids.len());
                    let j = choose|j: int| 0 <= j < n && ks[j] == before[k].entity;
                    assert(0 <= j < n + 1 && ks[j] == out@[k].entity);
                } else {
                    assert(ks[n] == out@[k].entity);
                }
            }
            assert forall|i: int|
                0 <= i < ids.len() && (#[trigger] listed_user(ids, info, users@, i)) is Some
                    && key_seen(ks, n + 1, ids[i]) implies exists|k: int|
                    0 <= k < out@.len() && out@[k].id == i by {
                let j = choose|j: int| 0 <= j < n + 1 && ks[j] == ids[i];
                if j < n {
                    assert(key_seen(ks, n, ids[i]));
                    let k = choose|k: int| 0 <= k < before.len() && before[k].id == i;
                    assert(out@[k] == before[k]);
                } else {
                    assert(ids[i] == entity);
                    if i != row {
                        if i < row {
                            assert(ids[i] != ids[row as int]);
                        } else {
                            assert(ids[row as int] != ids[i]);
                        }
                    }
                    assert(out@[before.len() as int].id == i);
                }
            }
        }
    }
    proof {
        assert forall|i: int|
            0 <= i < ids.len() && (#[trigger] listed_user(ids, info, users@, i)) is Some implies exists|
            k: int,
        |
            0 <= k < out@.len() && out@[k].id == i by {
            assert(ids.contains(ids[i]));
            assert(player_rows@.contains_key(ids[i]));
            assert(key_seen(ks, pairs.len() as int, ids[i]));
        }
    }
    out
}

} // verus!
