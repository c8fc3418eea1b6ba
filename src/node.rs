//! The decisions of one participant: its phase, its roster and its share
//! tables, driven by user answers, broadcast messages and disconnections.
//! The caller performs the returned actions.
use vstd::prelude::*;
use rsa::RsaPrivateKey;
use crate::arith::wrap64;
use crate::envelope::{draw_shares, has_long_key, open_shares, seal_shares};
use crate::error::ProtocolError;
use crate::frame::RECORD_LEN;
use crate::keys::PublicKey;
use crate::sharing::{
    aggregate, appears, copy_table, grand_total, has_key, is_partial_sum, is_result, key_total,
    partial_sum, unique_keys,
};
use crate::keyed::{distinct_keyed, keyed_map, put_keyed};
use crate::roster::{
    distinct_members, find_member, find_peer, is_member, member_keys, not_on, remove_peer,
    roster_view, upsert, Participant,
};

verus! {

/// The lifecycle phases of a benchmark.
#[derive(Debug, Clone, Copy, PartialEq, Eq, Structural)]
pub enum Phase {
    WaitingForParticipants,
    ConfirmingParticipants,
    SendingShares,
}

/// What the user answered when asked to confirm the roster.
#[derive(Debug, Clone, Copy, PartialEq, Eq, Structural)]
pub enum Answer {
    Yes,
    No,
    Unclear,
}

/// One broadcast message.
pub enum Msg {
    Join(PublicKey, String),
    Quit(Vec<u8>, String),
    Participants(Vec<Participant>),
    LobbyNowClosed,
    Share { from: PublicKey, to: PublicKey, share: Vec<u8> },
    Sum(PublicKey, Vec<(String, i64)>),
    Result(Vec<(String, i64)>),
}

/// Something to tell the user.
pub enum Notice {
    SessionStarted,
    CannotStartYet,
    Starting,
    ConfirmRoster,
    JoiningBenchmark,
    InvalidAnswer,
    NewParticipant(PublicKey, String),
    Departed(String),
    AlreadySharing,
    TooFewAtClose,
    NotForLeader,
    UnexpectedSum,
    UnexpectedResult,
    NotEveryoneAgreed,
    Cancelled,
    ParticipantLeft(String),
    SomeoneLeft,
    ConnectionError,
}

/// One thing for the caller to do, in order.
pub enum Action {
    Publish(Msg),
    Say(Notice),
    ShowRoster,
    ShowResults(Vec<(String, i64)>),
    Exit(u8),
}

/// The fewest participants a benchmark may start with.
pub const MIN_PARTICIPANTS: usize = 3;

/// The state of one participant.
pub struct Node {
    pub phase: Phase,
    pub leader: bool,
    pub me: PublicKey,
    pub alias: String,
    pub roster: Vec<Participant>,
    pub received: Vec<(PublicKey, Vec<u8>)>,
    pub sums: Vec<(PublicKey, Vec<(String, i64)>)>,
    pub sent: Vec<Vec<i64>>,
    pub shares_sent: bool,
    pub sum_sent: bool,
    pub result: Option<Vec<(String, i64)>>,
}

/// The answer for a line whose trimmed text is `trimmed` and whose trimmed
/// and lowercased text is `lowered`: empty or "y" confirms, "n" declines.
pub open spec fn answer_spec(trimmed: Seq<char>, lowered: Seq<char>) -> Answer {
    if trimmed.len() == 0 || lowered == seq!['y'] {
        Answer::Yes
    } else if lowered == seq!['n'] {
        Answer::No
    } else {
        Answer::Unclear
    }
}

/// Classifies an answer from its trimmed and its lowercased trimmed text.
pub fn classify_answer(trimmed: &str, lowered: &str) -> (r: Answer)
    ensures
        r == answer_spec(trimmed@, lowered@),
{
    let is_y = lowered.unicode_len() == 1 && lowered.get_char(0) == 'y';
    let is_n = lowered.unicode_len() == 1 && lowered.get_char(0) == 'n';
    proof {
        if lowered@.len() == 1 {
            assert(is_y == (lowered@ =~= seq!['y']));
            assert(is_n == (lowered@ =~= seq!['n']));
        }
    }
    if trimmed.unicode_len() == 0 || is_y {
        Answer::Yes
    } else if is_n {
        Answer::No
    } else {
        Answer::Unclear
    }
}

/// Whether `c` has the Unicode White_Space property.
pub open spec fn is_white_space(c: char) -> bool {
    let u = c as u32;
    ||| 0x9 <= u <= 0xd
    ||| u == 0x20
    ||| u == 0x85
    ||| u == 0xa0
    ||| u == 0x1680
    ||| 0x2000 <= u <= 0x200a
    ||| u == 0x2028
    ||| u == 0x2029
    ||| u == 0x202f
    ||| u == 0x205f
    ||| u == 0x3000
}

/// The text without its leading white space.
pub open spec fn trim_start(s: Seq<char>) -> Seq<char>
    decreases s.len(),
{
    if s.len() > 0 && is_white_space(s[0]) {
        trim_start(s.drop_first())
    } else {
        s
    }
}

/// The text without its trailing white space.
pub open spec fn trim_end(s: Seq<char>) -> Seq<char>
    decreases s.len(),
{
    if s.len() > 0 && is_white_space(s.last()) {
        trim_end(s.drop_last())
    } else {
        s
    }
}

/// The text without leading and trailing white space.
pub open spec fn trimmed(s: Seq<char>) -> Seq<char> {
    trim_end(trim_start(s))
}

/// What `str::to_lowercase` makes of a text.
pub uninterp spec fn lower_of(s: Seq<char>) -> Seq<char>;

/// Relies on `str::trim`: the text without leading and trailing white
/// space, white space being the characters with the Unicode White_Space
/// property.
#[verifier::external_body]
fn trim_text(s: &str) -> (r: &str)
    ensures
        r@ == trimmed(s@),
{
    s.trim()
}

/// Relies on `str::to_lowercase`: the lowercase form of the text.
#[verifier::external_body]
fn lowercase_text(s: &str) -> (r: String)
    ensures
        r@ == lower_of(s@),
{
    s.to_lowercase()
}

/// The answer that a line of user input gives.
pub fn answer_of(line: &str) -> (r: Answer)
    ensures
        r == answer_spec(trimmed(line@), lower_of(trimmed(line@))),
{
    let t = trim_text(line);
    let l = lowercase_text(t);
    classify_answer(t, l.as_str())
}

/// The received-blob table after message `msg`: a share addressed to `me`
/// from someone on `roster` replaces that sender's earlier blob.
pub open spec fn after_share(
    received: Map<Seq<char>, Vec<u8>>,
    me: Seq<char>,
    roster: Seq<Participant>,
    msg: Msg,
) -> Map<Seq<char>, Vec<u8>> {
    match msg {
        Msg::Share { from, to, share } => if to.pem@ == me && is_member(roster, from.pem@) {
            received.insert(from.pem@, share)
        } else {
            received
        },
        _ => received,
    }
}

/// The partial-sum table after message `msg`: while shares are exchanged,
/// the leader keeps each participant's latest partial sum.
pub open spec fn after_sum(
    sums: Map<Seq<char>, Vec<(String, i64)>>,
    leader: bool,
    phase: Phase,
    msg: Msg,
) -> Map<Seq<char>, Vec<(String, i64)>> {
    match msg {
        Msg::Sum(k, t) => if leader && phase == Phase::SendingShares {
            sums.insert(k.pem@, t)
        } else {
            sums
        },
        _ => sums,
    }
}

/// The phase after message `msg`: a follower that learns that the lobby has
/// closed, with enough participants, is asked to confirm the roster.
pub open spec fn phase_after_msg(phase: Phase, leader: bool, roster_len: nat, msg: Msg) -> Phase {
    if phase == Phase::WaitingForParticipants && msg is LobbyNowClosed && !leader && roster_len
        >= MIN_PARTICIPANTS {
        Phase::ConfirmingParticipants
    } else {
        phase
    }
}

/// Delivering the same message twice leaves the share and sum tables as one
/// delivery does.
pub proof fn lemma_redelivery_idempotent(
    received: Map<Seq<char>, Vec<u8>>,
    sums: Map<Seq<char>, Vec<(String, i64)>>,
    me: Seq<char>,
    roster: Seq<Participant>,
    leader: bool,
    phase: Phase,
    msg: Msg,
)
    ensures
        after_share(after_share(received, me, roster, msg), me, roster, msg) == after_share(
            received,
            me,
            roster,
            msg,
        ),
        after_sum(after_sum(sums, leader, phase, msg), leader, phase, msg) == after_sum(
            sums,
            leader,
            phase,
            msg,
        ),
{
    match msg {
        Msg::Share { from, to, share } => {
            assert(received.insert(from.pem@, share).insert(from.pem@, share) =~= received.insert(
                from.pem@,
                share,
            ));
        },
        Msg::Sum(k, t) => {
            assert(sums.insert(k.pem@, t).insert(k.pem@, t) =~= sums.insert(k.pem@, t));
        },
        _ => {},
    }
}

/// The participants other than the one with key text `me`.
pub open spec fn others(r: Seq<Participant>, me: Seq<char>) -> Seq<Participant> {
    r.filter(not_key(me))
}

/// Whether a participant's key text differs from `me`.
pub open spec fn not_key(me: Seq<char>) -> spec_fn(Participant) -> bool {
    |p: Participant| p.key.pem@ != me
}

/// The partial-sum tables of a keyed table of partial sums.
pub open spec fn sum_tables(s: Seq<(PublicKey, Vec<(String, i64)>)>) -> Seq<Vec<(String, i64)>> {
    s.map_values(|e: (PublicKey, Vec<(String, i64)>)| e.1)
}

/// The records of the blobs in `parts`, one blob after another.
pub open spec fn concat_records(parts: Seq<Seq<(String, i64)>>) -> Seq<(String, i64)>
    decreases parts.len(),
{
    if parts.len() == 0 {
        Seq::empty()
    } else {
        concat_records(parts.drop_last()) + parts.last()
    }
}

/// `recs` reads as the records opened from the blobs of `received`, blob by
/// blob in order, one record for each `RECORD_LEN` bytes of a blob.
pub open spec fn records_of_blobs(
    received: Seq<(PublicKey, Vec<u8>)>,
    recs: Seq<(String, i64)>,
) -> bool {
    exists|parts: Seq<Seq<(String, i64)>>|
        {
            &&& parts.len() == received.len()
            &&& forall|i: int|
                0 <= i < parts.len() ==> (#[trigger] parts[i]).len() == received[i].1@.len() / (
                RECORD_LEN as nat)
            &&& #[trigger] concat_records(parts) == recs
        }
}

/// Some received blob is not a whole number of records.
pub open spec fn some_blob_misaligned(received: Seq<(PublicKey, Vec<u8>)>) -> bool {
    exists|i: int| 0 <= i < received.len() && (#[trigger] received[i]).1@.len() % (RECORD_LEN as nat) != 0
}

/// `a` publishes the partial sum of `me`, computed from its inputs `local`,
/// the share lists `sent` and the records of the blobs `received`.
pub open spec fn sum_action(
    a: Action,
    me: PublicKey,
    local: Seq<(String, i64)>,
    sent: Seq<Vec<i64>>,
    received: Seq<(PublicKey, Vec<u8>)>,
) -> bool {
    &&& a is Publish
    &&& a->Publish_0 is Sum
    &&& a->Publish_0->Sum_0 == me
    &&& exists|recs: Seq<(String, i64)>|
        #[trigger] records_of_blobs(received, recs) && is_partial_sum(
            a->Publish_0->Sum_1@,
            local,
            sent,
            recs,
        )
}

/// `a` publishes a share blob from `me` to the key text `to`, with one record
/// for each of `n_keys` keys.
pub open spec fn share_action(a: Action, me: PublicKey, to: Seq<char>, n_keys: nat) -> bool {
    &&& a is Publish
    &&& a->Publish_0 is Share
    &&& a->Publish_0->from == me
    &&& a->Publish_0->to.pem@ == to
    &&& a->Publish_0->share@.len() == RECORD_LEN * n_keys
}

/// A follower that adopts the roster the leader published holds the
/// leader's roster: the leader's roster has no repeated key, so neither has
/// the copy it published, and a follower takes such a roster as it is.
pub proof fn lemma_follower_sees_leader_roster(
    leader_roster: Seq<Participant>,
    published: Seq<Participant>,
    follower_roster: Seq<Participant>,
)
    requires
        distinct_members(leader_roster),
        roster_view(published) == roster_view(leader_roster),
        distinct_members(published) ==> roster_view(follower_roster) == roster_view(published),
    ensures
        roster_view(follower_roster) == roster_view(leader_roster),
{
    assert(published.len() == roster_view(published).len());
    assert(leader_roster.len() == roster_view(leader_roster).len());
    assert forall|i: int, j: int| 0 <= i < j < published.len() implies (#[trigger] published[i]).key.pem@
        != (#[trigger] published[j]).key.pem@ by {
        assert(roster_view(published)[i] == roster_view(leader_roster)[i]);
        assert(roster_view(published)[j] == roster_view(leader_roster)[j]);
        assert(leader_roster[i].key.pem@ != leader_roster[j].key.pem@);
    }
}

/// A copy of a roster.
pub fn copy_roster(r: &Vec<Participant>) -> (c: Vec<Participant>)
    ensures
        roster_view(c@) == roster_view(r@),
{
    let mut c: Vec<Participant> = Vec::new();
    let mut i: usize = 0;
    while i < r.len()
        invariant
            i <= r@.len(),
            roster_view(c@) == roster_view(r@.subrange(0, i as int)),
        decreases r@.len() - i,
    {
        let ghost before = c@;
        let p = r[i].clone();
        c.push(p);
        proof {
            assert(r@.subrange(0, i + 1) =~= r@.subrange(0, i as int).push(r@[i as int]));
            assert(roster_view(c@) =~= roster_view(before).push(crate::roster::pview(r@[i as int])));
            assert(roster_view(r@.subrange(0, i + 1)) =~= roster_view(r@.subrange(0, i as int)).push(
                crate::roster::pview(r@[i as int]),
            ));
        }
        i = i + 1;
    }
    assert(r@.subrange(0, i as int) =~= r@);
    c
}

impl Node {
    /// The node's tables are consistent.
    pub open spec fn wf(&self) -> bool {
        &&& distinct_members(self.roster@)
        &&& distinct_keyed(self.received@)
        &&& distinct_keyed(self.sums@)
    }

    /// A fresh node, waiting for participants, that knows no one yet.
    pub fn new(me: PublicKey, alias: String, leader: bool) -> (r: Node)
        ensures
            r.wf(),
            r.phase == Phase::WaitingForParticipants,
            r.leader == leader,
            r.me == me,
            r.alias == alias,
            r.roster@.len() == 0,
            r.received@.len() == 0,
            r.sums@.len() == 0,
            r.sent@.len() == 0,
            !r.shares_sent,
            !r.sum_sent,
            r.result is None,
    {
        Node {
            phase: Phase::WaitingForParticipants,
            leader,
            me,
            alias,
            roster: Vec::new(),
            received: Vec::new(),
            sums: Vec::new(),
            sent: Vec::new(),
            shares_sent: false,
            sum_sent: false,
            result: None,
        }
    }

    /// Handles a line of user input. The leader starts the benchmark when
    /// enough participants have joined; a follower asked to confirm the
    /// roster joins, declines or is asked again.
    pub fn on_line(&mut self, answer: Answer) -> (acts: Vec<Action>)
        requires
            old(self).wf(),
        ensures
            final(self).wf(),
            roster_view(final(self).roster@) == roster_view(old(self).roster@),
            final(self).received == old(self).received,
            final(self).sums == old(self).sums,
            final(self).leader == old(self).leader,
            final(self).result == old(self).result,
            final(self).phase == Phase::SendingShares && old(self).phase
                == Phase::WaitingForParticipants ==> old(self).roster@.len() >= MIN_PARTICIPANTS,
            ({
                let o = *old(self);
                let f = *final(self);
                if o.phase == Phase::WaitingForParticipants && o.leader {
                    if o.roster@.len() < MIN_PARTICIPANTS {
                        f.phase == o.phase && acts@.len() == 1 && acts@[0] is Say
                            && acts@[0]->Say_0 is CannotStartYet
                    } else {
                        f.phase == Phase::SendingShares && acts@.len() == 2 && acts@[0] is Say
                            && acts@[0]->Say_0 is Starting && acts@[1] is Publish
                            && acts@[1]->Publish_0 is LobbyNowClosed
                    }
                } else if o.phase == Phase::ConfirmingParticipants {
                    match answer {
                        Answer::Yes => f.phase == Phase::SendingShares && acts@.len() == 1
                            && acts@[0] is Say && acts@[0]->Say_0 is JoiningBenchmark,
                        Answer::No => f.phase == o.phase && acts@.len() == 1 && acts@[0] is Exit
                            && acts@[0]->Exit_0 == 0,
                        Answer::Unclear => f.phase == o.phase && acts@.len() == 1
                            && acts@[0] is Say && acts@[0]->Say_0 is InvalidAnswer,
                    }
                } else {
                    f.phase == o.phase && acts@.len() == 0
                }
            }),
    {
        let mut acts: Vec<Action> = Vec::new();
        match self.phase {
            Phase::WaitingForParticipants => {
                if self.leader {
                    if self.roster.len() < MIN_PARTICIPANTS {
                        acts.push(Action::Say(Notice::CannotStartYet));
                    } else {
                        self.phase = Phase::SendingShares;
                        acts.push(Action::Say(Notice::Starting));
                        acts.push(Action::Publish(Msg::LobbyNowClosed));
                    }
                }
            },
            Phase::ConfirmingParticipants => {
                match answer {
                    Answer::Yes => {
                        self.phase = Phase::SendingShares;
                        acts.push(Action::Say(Notice::JoiningBenchmark));
                    },
                    Answer::No => {
                        acts.push(Action::Exit(0));
                    },
                    Answer::Unclear => {
                        acts.push(Action::Say(Notice::InvalidAnswer));
                    },
                }
            },
            Phase::SendingShares => {},
        }
        acts
    }

    /// Handles a broadcast message that arrived from transport identifier
    /// `peer`. Messages that do not belong to the current phase are reported
    /// or ignored and never advance it.
    pub fn on_message(&mut self, msg: Msg, peer: Vec<u8>) -> (acts: Vec<Action>)
        requires
            old(self).wf(),
        ensures
            final(self).wf(),
            final(self).leader == old(self).leader,
            final(self).me == old(self).me,
            final(self).result == old(self).result,
            final(self).sent == old(self).sent,
            final(self).phase == phase_after_msg(
                old(self).phase,
                old(self).leader,
                old(self).roster@.len(),
                msg,
            ),
            keyed_map(final(self).received@) == after_share(
                keyed_map(old(self).received@),
                old(self).me.pem@,
                old(self).roster@,
                msg,
            ),
            keyed_map(final(self).sums@) == after_sum(
                keyed_map(old(self).sums@),
                old(self).leader,
                old(self).phase,
                msg,
            ),
            ({
                let o = *old(self);
                let f = *final(self);
                if o.phase == Phase::WaitingForParticipants {
                    match msg {
                        Msg::Join(k, a) => if o.leader {
                            &&& member_keys(f.roster@) == member_keys(o.roster@).insert(k.pem@)
                            &&& acts@.len() == 2
                            &&& acts@[1] is Publish
                            &&& acts@[1]->Publish_0 is Participants
                            &&& roster_view(acts@[1]->Publish_0->Participants_0@) == roster_view(
                                f.roster@,
                            )
                        } else {
                            roster_view(f.roster@) == roster_view(o.roster@) && acts@.len() == 0
                        },
                        Msg::Participants(all) => {
                            &&& member_keys(f.roster@) == member_keys(all@)
                            &&& distinct_members(all@) ==> roster_view(f.roster@) == roster_view(
                                all@,
                            )
                        },
                        Msg::LobbyNowClosed => {
                            &&& roster_view(f.roster@) == roster_view(o.roster@)
                            &&& !o.leader && o.roster@.len() < MIN_PARTICIPANTS ==> acts@.len()
                                == 2 && acts@[0] is Say && acts@[0]->Say_0 is TooFewAtClose
                                && acts@[1] is Exit && acts@[1]->Exit_0 == 1
                        },
                        Msg::Sum(_, _) => {
                            &&& roster_view(f.roster@) == roster_view(o.roster@)
                            &&& acts@.len() == 2 && acts@[0] is Say && acts@[0]->Say_0 is UnexpectedSum
                            &&& acts@[1] is Exit && acts@[1]->Exit_0 == 1
                        },
                        Msg::Result(_) => {
                            &&& roster_view(f.roster@) == roster_view(o.roster@)
                            &&& acts@.len() == 2 && acts@[0] is Say && acts@[0]->Say_0 is UnexpectedResult
                            &&& acts@[1] is Exit && acts@[1]->Exit_0 == 1
                        },
                        _ => roster_view(f.roster@) == roster_view(o.roster@),
                    }
                } else {
                    &&& roster_view(f.roster@) == roster_view(o.roster@)
                    &&& (o.phase == Phase::SendingShares && msg is Result) ==> acts@.len() == 2
                        && acts@[0] is ShowResults && acts@[0]->ShowResults_0 == msg->Result_0
                        && acts@[1] is Exit && acts@[1]->Exit_0 == 0
                }
            }),
    {
        let mut acts: Vec<Action> = Vec::new();
        let phase = self.phase;
        match msg {
            Msg::Share { from, to, share } => {
                if to.same(&self.me) {
                    match find_member(&self.roster, &from) {
                        Some(_) => {
                            put_keyed(&mut self.received, from, share);
                        },
                        None => {},
                    }
                }
            },
            Msg::Join(k, a) => {
                if phase == Phase::WaitingForParticipants {
                    if self.leader {
                        let p = Participant { key: k.clone(), alias: a.clone(), peer };
                        upsert(&mut self.roster, p);
                        acts.push(Action::Say(Notice::NewParticipant(k, a)));
                        acts.push(Action::Publish(Msg::Participants(copy_roster(&self.roster))));
                    }
                } else if phase == Phase::SendingShares {
                    acts.push(Action::Say(Notice::AlreadySharing));
                }
            },
            Msg::Quit(_, name) => {
                if phase == Phase::WaitingForParticipants {
                    acts.push(Action::Say(Notice::Departed(name)));
                    acts.push(Action::ShowRoster);
                }
            },
            Msg::Participants(all) => {
                if phase == Phase::WaitingForParticipants {
                    let mut fresh: Vec<Participant> = Vec::new();
                    let mut i: usize = 0;
                    while i < all.len()
                        invariant
                            i <= all@.len(),
                            distinct_members(fresh@),
                            member_keys(fresh@) == member_keys(all@.subrange(0, i as int)),
                            distinct_members(all@) ==> roster_view(fresh@) == roster_view(
                                all@.subrange(0, i as int),
                            ),
                        decreases all@.len() - i,
                    {
                        let p = all[i].clone();
                        if find_member(&self.roster, &p.key).is_none() {
                            acts.push(
                                Action::Say(Notice::NewParticipant(p.key.clone(), p.alias.clone())),
                            );
                        }
                        let ghost before = fresh@;
                        proof {
                            if distinct_members(all@) && is_member(before, p.key.pem@) {
                                let j = choose|j: int|
                                    0 <= j < before.len() && (#[trigger] before[j]).key.pem@
                                        == p.key.pem@;
                                assert(roster_view(before)[j] == roster_view(
                                    all@.subrange(0, i as int),
                                )[j]);
                                assert(all@[j].key.pem@ == all@[i as int].key.pem@);
                            }
                        }
                        upsert(&mut fresh, p);
                        i = i + 1;
                        proof {
                            let sub = all@.subrange(0, i as int);
                            assert(roster_view(sub) =~= roster_view(all@.subrange(0, i - 1)).push(
                                crate::roster::pview(all@[i - 1]),
                            ));
                            assert(member_keys(sub) =~= member_keys(all@.subrange(0, i - 1)).insert(
                                all@[i - 1].key.pem@,
                            )) by {
                                assert forall|x: Seq<char>| is_member(sub, x) <==> (is_member(all@.subrange(0, i - 1), x) || x == all@[i - 1].key.pem@) by {
                                    if is_member(sub, x) {
                                        let j = choose|j: int| 0 <= j < sub.len() && (#[trigger] sub[j]).key.pem@ == x;
                                        if j < i - 1 {
                                            assert(all@.subrange(0, i - 1)[j] == sub[j]);
                                        }
                                    }
                                    if is_member(all@.subrange(0, i - 1), x) {
                                        let j = choose|j: int| 0 <= j < i - 1 && (#[trigger] all@.subrange(0, i - 1)[j]).key.pem@ == x;
                                        assert(sub[j] == all@.subrange(0, i - 1)[j]);
                                    }
                                    if x == all@[i - 1].key.pem@ {
                                        assert(sub[i - 1].key.pem@ == x);
                                    }
                                }
                            }
                        }
                    }
                    proof {
                        assert(all@.subrange(0, i as int) =~= all@);
                    }
                    self.roster = fresh;
                } else if phase == Phase::SendingShares {
                    acts.push(Action::Say(Notice::AlreadySharing));
                }
            },
            Msg::LobbyNowClosed => {
                if phase == Phase::WaitingForParticipants {
                    if self.leader {
                        acts.push(Action::Say(Notice::NotForLeader));
                    } else if self.roster.len() < MIN_PARTICIPANTS {
                        acts.push(Action::Say(Notice::TooFewAtClose));
                        acts.push(Action::Exit(1));
                    } else {
                        self.phase = Phase::ConfirmingParticipants;
                        acts.push(Action::Say(Notice::ConfirmRoster));
                    }
                } else if phase == Phase::SendingShares {
                    acts.push(Action::Say(Notice::AlreadySharing));
                }
            },
            Msg::Sum(k, t) => {
                if phase == Phase::WaitingForParticipants {
                    acts.push(Action::Say(Notice::UnexpectedSum));
                    acts.push(Action::Exit(1));
                } else if phase == Phase::SendingShares && self.leader {
                    put_keyed(&mut self.sums, k, t);
                }
            },
            Msg::Result(r) => {
                if phase == Phase::WaitingForParticipants {
                    acts.push(Action::Say(Notice::UnexpectedResult));
                    acts.push(Action::Exit(1));
                } else if phase == Phase::SendingShares {
                    acts.push(Action::ShowResults(r));
                    acts.push(Action::Exit(0));
                }
            },
        }
        acts
    }

    /// Handles the loss of the connection to transport identifier `peer`,
    /// with `connected` peers still connected. Before the lobby closes the
    /// leader drops the participant and tells everyone; once shares are
    /// being exchanged any loss aborts the benchmark, unless its result is
    /// already known.
    pub fn on_disconnect(&mut self, peer: Vec<u8>, connected: usize) -> (acts: Vec<Action>)
        requires
            old(self).wf(),
        ensures
            final(self).wf(),
            final(self).phase == old(self).phase,
            final(self).leader == old(self).leader,
            final(self).me == old(self).me,
            final(self).result == old(self).result,
            final(self).received == old(self).received,
            final(self).sums == old(self).sums,
            final(self).sent == old(self).sent,
            ({
                let o = *old(self);
                let f = *final(self);
                let on_roster = exists|j: int|
                    0 <= j < o.roster@.len() && (#[trigger] o.roster@[j]).peer@ == peer@;
                if o.phase == Phase::WaitingForParticipants && o.result is None {
                    if o.leader && on_roster {
                        &&& roster_view(f.roster@) == roster_view(o.roster@).filter(not_on(peer@))
                        &&& connected > 0 ==> acts@.len() == 4 && acts@[1] is Publish
                            && acts@[1]->Publish_0 is Quit && acts@[1]->Publish_0->Quit_0@ == peer@
                            && (exists|j: int|
                            0 <= j < o.roster@.len() && (#[trigger] o.roster@[j]).peer@ == peer@
                                && acts@[1]->Publish_0->Quit_1@ == o.roster@[j].alias@)
                            && acts@[3] is Publish
                            && acts@[3]->Publish_0 is Participants && roster_view(
                            acts@[3]->Publish_0->Participants_0@,
                        ) == roster_view(f.roster@)
                    } else {
                        roster_view(f.roster@) == roster_view(o.roster@)
                    }
                } else {
                    &&& roster_view(f.roster@) == roster_view(o.roster@)
                    &&& o.phase == Phase::SendingShares && o.result is None ==> acts@.len() == 2
                        && acts@[0] is Say && acts@[1] is Exit && acts@[1]->Exit_0 == 1
                    &&& o.phase == Phase::SendingShares && o.result is Some ==> acts@.len() == 0
                }
            }),
    {
        let mut acts: Vec<Action> = Vec::new();
        match self.phase {
            Phase::WaitingForParticipants => {
                if self.result.is_some() {
                    acts.push(Action::Exit(0));
                    return acts;
                }
                let i = match find_peer(&self.roster, &peer) {
                    Some(i) => i,
                    None => {
                        return acts;
                    },
                };
                let name = self.roster[i].alias.clone();
                acts.push(Action::Say(Notice::Departed(name.clone())));
                if self.leader {
                    if connected == 0 {
                        remove_peer(&mut self.roster, &peer);
                    } else {
                        remove_peer(&mut self.roster, &peer);
                        acts.push(Action::Publish(Msg::Quit(peer, name)));
                        acts.push(Action::ShowRoster);
                        acts.push(Action::Publish(Msg::Participants(copy_roster(&self.roster))));
                    }
                }
            },
            Phase::SendingShares => {
                if self.result.is_some() {
                    return acts;
                }
                if self.leader {
                    match find_peer(&self.roster, &peer) {
                        Some(i) => {
                            acts.push(
                                Action::Say(Notice::ParticipantLeft(self.roster[i].alias.clone())),
                            );
                        },
                        None => {
                            acts.push(Action::Say(Notice::ConnectionError));
                        },
                    }
                } else {
                    acts.push(Action::Say(Notice::SomeoneLeft));
                }
                acts.push(Action::Exit(1));
            },
            Phase::ConfirmingParticipants => {},
        }
        acts
    }

    /// Step A: draws fresh shares for every other participant and seals them
    /// into one share message each.
    pub fn send_shares(&mut self, local: &Vec<(String, i64)>, secret: &RsaPrivateKey) -> (r: Result<
        Vec<Action>,
        ProtocolError,
    >)
        requires
            old(self).wf(),
        ensures
            final(self).wf(),
            final(self).phase == old(self).phase,
            final(self).leader == old(self).leader,
            final(self).me == old(self).me,
            final(self).roster == old(self).roster,
            final(self).received == old(self).received,
            final(self).sums == old(self).sums,
            final(self).result == old(self).result,
            final(self).sum_sent == old(self).sum_sent,
            forall|p: int|
                0 <= p < old(self).sent@.len() ==> #[trigger] final(self).sent@[p] == old(
                    self,
                ).sent@[p],
            forall|p: int|
                old(self).sent@.len() <= p < final(self).sent@.len() ==> (
                #[trigger] final(self).sent@[p])@.len() == local@.len(),
            r matches Ok(acts) ==> {
                &&& final(self).shares_sent
                &&& final(self).sent@.len() == old(self).sent@.len() + others(
                    old(self).roster@,
                    old(self).me.pem@,
                ).len()
                &&& acts@.len() == others(old(self).roster@, old(self).me.pem@).len()
                &&& forall|i: int|
                    0 <= i < acts@.len() ==> share_action(
                        #[trigger] acts@[i],
                        old(self).me,
                        others(old(self).roster@, old(self).me.pem@)[i].key.pem@,
                        local@.len(),
                    )
            },
            others(old(self).roster@, old(self).me.pem@).len() == 0 ==> r is Ok,
            has_long_key(local@) && others(old(self).roster@, old(self).me.pem@).len() > 0
                ==> r is Err,
    {
        let ghost start = self.sent@;
        let ghost mine = self.me.pem@;
        let ghost all = self.roster@;
        let ghost o = *self;
        let mut acts: Vec<Action> = Vec::new();
        let mut i: usize = 0;
        while i < self.roster.len()
            invariant
                self.wf(),
                self.roster@ == all,
                self.phase == o.phase,
                self.leader == o.leader,
                self.me == o.me,
                self.roster == o.roster,
                self.received == o.received,
                self.sums == o.sums,
                self.result == o.result,
                self.sum_sent == o.sum_sent,
                o == *old(self),
                start == o.sent@,
                self.me.pem@ == mine,
                i <= all.len(),
                self.sent@.len() == start.len() + acts@.len(),
                forall|p: int| 0 <= p < start.len() ==> #[trigger] self.sent@[p] == start[p],
                forall|p: int|
                    start.len() <= p < self.sent@.len() ==> (#[trigger] self.sent@[p])@.len()
                        == local@.len(),
                acts@.len() == others(all.subrange(0, i as int), mine).len(),
                forall|j: int|
                    0 <= j < acts@.len() ==> share_action(
                        #[trigger] acts@[j],
                        self.me,
                        others(all.subrange(0, i as int), mine)[j].key.pem@,
                        local@.len(),
                    ),
                has_long_key(local@) ==> acts@.len() == 0,
            decreases all.len() - i,
        {
            proof {
                assert(all.subrange(0, i + 1) =~= all.subrange(0, i as int).push(all[i as int]));
                all.subrange(0, i as int).lemma_filter_push(all[i as int], not_key(mine));
            }
            if !self.roster[i].key.same(&self.me) {
                proof {
                    all.lemma_filter_contains(not_key(mine), i as int);
                }
                let recipient = match self.roster[i].key.to_rsa() {
                    Ok(k) => k,
                    Err(e) => {
                        return Err(e);
                    },
                };
                let shares = draw_shares(local.len());
                let blob = match seal_shares(local, &shares, &recipient, secret) {
                    Ok(b) => b,
                    Err(e) => {
                        return Err(e);
                    },
                };
                self.sent.push(shares);
                acts.push(
                    Action::Publish(
                        Msg::Share { from: self.me.clone(), to: self.roster[i].key.clone(), share: blob },
                    ),
                );
            }
            i = i + 1;
        }
        proof {
            assert(all.subrange(0, i as int) =~= all);
        }
        self.shares_sent = true;
        Ok(acts)
    }

    /// Steps B and C: opens every received blob, computes this participant's
    /// partial sum and publishes it; the leader also keeps it. A blob that is
    /// not a whole number of records is refused before any blob is opened.
    pub fn send_sum(&mut self, local: &Vec<(String, i64)>, secret: &RsaPrivateKey) -> (r: Result<
        Vec<Action>,
        ProtocolError,
    >)
        requires
            old(self).wf(),
            unique_keys(local@),
            forall|p: int|
                0 <= p < old(self).sent@.len() ==> (#[trigger] old(self).sent@[p])@.len()
                    == local@.len(),
        ensures
            final(self).wf(),
            final(self).phase == old(self).phase,
            final(self).leader == old(self).leader,
            final(self).me == old(self).me,
            final(self).roster == old(self).roster,
            final(self).received == old(self).received,
            final(self).sent == old(self).sent,
            final(self).result == old(self).result,
            final(self).shares_sent == old(self).shares_sent,
            r is Err ==> final(self).sums == old(self).sums && final(self).sum_sent == old(
                self,
            ).sum_sent,
            some_blob_misaligned(old(self).received@) ==> r == Err::<Vec<Action>, ProtocolError>(
                ProtocolError::MisalignedBlob,
            ),
            old(self).received@.len() == 0 ==> r is Ok,
            r matches Ok(acts) ==> {
                &&& final(self).sum_sent
                &&& acts@.len() == 1
                &&& sum_action(acts@[0], old(self).me, local@, old(self).sent@, old(self).received@)
                &&& old(self).leader ==> {
                    &&& keyed_map(final(self).sums@) == keyed_map(old(self).sums@).insert(
                        old(self).me.pem@,
                        keyed_map(final(self).sums@)[old(self).me.pem@],
                    )
                    &&& keyed_map(final(self).sums@)[old(self).me.pem@]@
                        == acts@[0]->Publish_0->Sum_1@
                }
                &&& !old(self).leader ==> final(self).sums == old(self).sums
            },
    {
        let mut i: usize = 0;
        while i < self.received.len()
            invariant
                *self == *old(self),
                self.wf(),
                i <= self.received@.len(),
                forall|j: int| 0 <= j < i ==> (#[trigger] self.received@[j]).1@.len() % (RECORD_LEN as nat) == 0,
            decreases self.received@.len() - i,
        {
            if self.received[i].1.len() % RECORD_LEN != 0 {
                return Err(ProtocolError::MisalignedBlob);
            }
            i = i + 1;
        }
        let ghost mut parts: Seq<Seq<(String, i64)>> = Seq::empty();
        let mut recs: Vec<(String, i64)> = Vec::new();
        let mut i: usize = 0;
        while i < self.received.len()
            invariant
                *self == *old(self),
                self.wf(),
                !some_blob_misaligned(self.received@),
                i <= self.received@.len(),
                parts.len() == i,
                forall|j: int|
                    0 <= j < i ==> (#[trigger] parts[j]).len() == self.received@[j].1@.len() / (
                    RECORD_LEN as nat),
                recs@ == concat_records(parts),
            decreases self.received@.len() - i,
        {
            let sender = match self.received[i].0.to_rsa() {
                Ok(k) => k,
                Err(e) => {
                    return Err(e);
                },
            };
            let mut opened = match open_shares(self.received[i].1.as_slice(), &sender, secret) {
                Ok(o) => o,
                Err(e) => {
                    return Err(e);
                },
            };
            proof {
                assert(parts.push(opened@).drop_last() =~= parts);
                parts = parts.push(opened@);
            }
            recs.append(&mut opened);
            i = i + 1;
        }
        assert(records_of_blobs(self.received@, recs@));
        let partial = match partial_sum(local, &self.sent, &recs) {
            Ok(t) => t,
            Err(e) => {
                return Err(e);
            },
        };
        let published = copy_table(&partial);
        if self.leader {
            put_keyed(&mut self.sums, self.me.clone(), partial);
        }
        self.sum_sent = true;
        let mut acts: Vec<Action> = Vec::new();
        acts.push(Action::Publish(Msg::Sum(self.me.clone(), published)));
        assert(is_partial_sum(acts@[0]->Publish_0->Sum_1@, local@, old(self).sent@, recs@));
        Ok(acts)
    }

    /// Step D, at the leader once every partial sum is in: adds them up,
    /// publishes the result and keeps it.
    pub fn publish_result(&mut self) -> (acts: Vec<Action>)
        requires
            old(self).wf(),
        ensures
            final(self).wf(),
            final(self).phase == old(self).phase,
            final(self).leader == old(self).leader,
            final(self).me == old(self).me,
            final(self).roster == old(self).roster,
            final(self).received == old(self).received,
            final(self).sums == old(self).sums,
            final(self).sent == old(self).sent,
            final(self).shares_sent == old(self).shares_sent,
            final(self).sum_sent == old(self).sum_sent,
            final(self).result is Some,
            is_result(final(self).result->0@, sum_tables(old(self).sums@)),
            acts@.len() == 2,
            acts@[0] is Publish,
            acts@[0]->Publish_0 is Result,
            acts@[0]->Publish_0->Result_0@ == final(self).result->0@,
            acts@[1] is ShowResults,
            acts@[1]->ShowResults_0@ == final(self).result->0@,
    {
        let mut tables: Vec<Vec<(String, i64)>> = Vec::new();
        let mut i: usize = 0;
        while i < self.sums.len()
            invariant
                *self == *old(self),
                i <= self.sums@.len(),
                tables@.len() == i,
                forall|j: int| 0 <= j < i ==> (#[trigger] tables@[j])@ == self.sums@[j].1@,
            decreases self.sums@.len() - i,
        {
            tables.push(copy_table(&self.sums[i].1));
            i = i + 1;
        }
        let totals = aggregate(&tables);
        proof {
            assert forall|k: Seq<char>| grand_total(tables@, k) == grand_total(sum_tables(self.sums@), k) by {
                assert(tables@.map_values(|t: Vec<(String, i64)>| key_total(t@, k)) =~= sum_tables(
                    self.sums@,
                ).map_values(|t: Vec<(String, i64)>| key_total(t@, k)));
            }
            assert forall|k: Seq<char>| appears(tables@, k) <==> appears(sum_tables(self.sums@), k) by {
                if appears(tables@, k) {
                    let x = choose|x: int| 0 <= x < tables@.len() && has_key(#[trigger] tables@[x]@, k);
                    assert(sum_tables(self.sums@)[x]@ == tables@[x]@);
                }
                if appears(sum_tables(self.sums@), k) {
                    let x = choose|x: int| 0 <= x < sum_tables(self.sums@).len() && has_key(#[trigger] sum_tables(self.sums@)[x]@, k);
                    assert(sum_tables(self.sums@)[x]@ == tables@[x]@);
                }
            }
        }
        let mut acts: Vec<Action> = Vec::new();
        acts.push(Action::Publish(Msg::Result(copy_table(&totals))));
        acts.push(Action::ShowResults(copy_table(&totals)));
        self.result = Some(totals);
        acts
    }

    /// The work due before waiting for the next event, given the number of
    /// peers still subscribed: abort when everyone else has gone, otherwise
    /// run each step of the exchange that has become ready and has not run.
    pub fn housekeeping(
        &mut self,
        gossip_peers: usize,
        local: &Vec<(String, i64)>,
        secret: &RsaPrivateKey,
    ) -> (r: Result<Vec<Action>, ProtocolError>)
        requires
            old(self).wf(),
            unique_keys(local@),
            forall|p: int|
                0 <= p < old(self).sent@.len() ==> (#[trigger] old(self).sent@[p])@.len()
                    == local@.len(),
        ensures
            final(self).wf(),
            forall|p: int|
                0 <= p < final(self).sent@.len() ==> (#[trigger] final(self).sent@[p])@.len()
                    == local@.len(),
            final(self).phase == old(self).phase,
            final(self).leader == old(self).leader,
            final(self).me == old(self).me,
            final(self).roster == old(self).roster,
            final(self).received == old(self).received,
            old(self).phase == Phase::WaitingForParticipants ==> (*final(self) == *old(self) && (r
                matches Ok(acts) && acts@.len() == 0)),
            old(self).phase != Phase::WaitingForParticipants && gossip_peers == 0 ==> (r matches Ok(
                acts,
            ) && acts@.len() > 0 && acts@.last() is Exit && acts@.last()->Exit_0 == 1 && forall|
                i: int,
            |
                0 <= i < acts@.len() ==> !(#[trigger] acts@[i] is Publish)),
            old(self).phase == Phase::ConfirmingParticipants && gossip_peers > 0 ==> (*final(self)
                == *old(self) && (r matches Ok(acts) && acts@.len() == 0)),
            old(self).phase == Phase::SendingShares && gossip_peers > 0 ==> ({
                let o = *old(self);
                let f = *final(self);
                let others_now = others(o.roster@, o.me.pem@);
                let ns = if o.shares_sent {
                    0
                } else {
                    others_now.len()
                };
                let sum_due = !o.sum_sent && o.roster@.len() > 0 && o.received@.len() + 1
                    == o.roster@.len();
                let ns2 = ns + if sum_due {
                    1int
                } else {
                    0int
                };
                let result_due = o.leader && o.result is None && f.sums@.len() == o.roster@.len();
                r matches Ok(acts) ==> {
                    &&& f.shares_sent
                    &&& sum_due ==> f.sum_sent
                    &&& acts@.len() == ns2 + if result_due {
                        2int
                    } else {
                        0int
                    }
                    &&& forall|i: int|
                        0 <= i < ns ==> share_action(
                            #[trigger] acts@[i],
                            o.me,
                            others_now[i].key.pem@,
                            local@.len(),
                        )
                    &&& sum_due ==> sum_action(acts@[ns as int], o.me, local@, f.sent@, o.received@)
                    &&& result_due ==> {
                        &&& f.result is Some
                        &&& is_result(f.result->0@, sum_tables(f.sums@))
                        &&& acts@[ns2] is Publish
                        &&& acts@[ns2]->Publish_0 is Result
                        &&& acts@[ns2]->Publish_0->Result_0@ == f.result->0@
                        &&& acts@[ns2 + 1] is ShowResults
                        &&& acts@[ns2 + 1]->ShowResults_0@ == f.result->0@
                    }
                    &&& !result_due ==> f.result == o.result
                }
            }),
    {
        let mut acts: Vec<Action> = Vec::new();
        match self.phase {
            Phase::WaitingForParticipants => {},
            Phase::ConfirmingParticipants => {
                if gossip_peers == 0 {
                    if self.result.is_none() {
                        acts.push(Action::Say(Notice::NotEveryoneAgreed));
                    }
                    acts.push(Action::Exit(1));
                }
            },
            Phase::SendingShares => {
                if gossip_peers == 0 {
                    if self.result.is_none() {
                        acts.push(Action::Say(Notice::Cancelled));
                    }
                    acts.push(Action::Exit(1));
                    return Ok(acts);
                }
                if !self.shares_sent {
                    let mut a = match self.send_shares(local, secret) {
                        Ok(a) => a,
                        Err(e) => {
                            return Err(e);
                        },
                    };
                    acts.append(&mut a);
                }
                if !self.sum_sent && self.roster.len() > 0 && self.received.len() == self.roster.len() - 1 {
                    let mut a = match self.send_sum(local, secret) {
                        Ok(a) => a,
                        Err(e) => {
                            return Err(e);
                        },
                    };
                    acts.append(&mut a);
                }
                if self.leader && self.result.is_none() && self.sums.len() == self.roster.len() {
                    let mut a = self.publish_result();
                    acts.append(&mut a);
                }
            },
        }
        Ok(acts)
    }

    /// Handles the first notice of this node's reachable address, on
    /// transport identifier `my_peer`: the node puts itself on the roster,
    /// and a follower asks the leader to let it join.
    pub fn on_listening(&mut self, my_peer: Vec<u8>) -> (acts: Vec<Action>)
        requires
            old(self).wf(),
        ensures
            final(self).wf(),
            final(self).phase == old(self).phase,
            final(self).leader == old(self).leader,
            final(self).me == old(self).me,
            final(self).received == old(self).received,
            final(self).sums == old(self).sums,
            old(self).phase == Phase::WaitingForParticipants ==> member_keys(final(self).roster@)
                == member_keys(old(self).roster@).insert(old(self).me.pem@),
            old(self).phase == Phase::WaitingForParticipants && !old(self).leader ==> acts@.len()
                == 2 && acts@[0] is Publish && acts@[0]->Publish_0 is Join
                && acts@[0]->Publish_0->Join_0 == old(self).me,
            old(self).phase != Phase::WaitingForParticipants ==> roster_view(final(self).roster@)
                == roster_view(old(self).roster@) && acts@.len() == 0,
    {
        let mut acts: Vec<Action> = Vec::new();
        if self.phase == Phase::WaitingForParticipants {
            if self.leader {
                acts.push(Action::Say(Notice::SessionStarted));
            } else {
                acts.push(Action::Publish(Msg::Join(self.me.clone(), self.alias.clone())));
            }
            acts.push(Action::ShowRoster);
            let p = Participant { key: self.me.clone(), alias: self.alias.clone(), peer: my_peer };
            upsert(&mut self.roster, p);
        }
        acts
    }
}

} // verus!
