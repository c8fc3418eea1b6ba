use rsa::{BigUint, RsaPrivateKey, RsaPublicKey};
use sine_benchmark::envelope::{draw_shares, open_shares, seal_shares};
use sine_benchmark::error::ProtocolError;
use sine_benchmark::keys::{fingerprint_of_digest, PublicKey};
use sine_benchmark::node::{answer_of, classify_answer, Action, Answer, Msg, Node, Notice, Phase};
use sine_benchmark::roster::Participant;

// Fixed RSA key pairs, given by their two primes, so that no test waits on
// key generation. The public exponent is 65537.
const ALICE_P: [u32; 32] = [
    2593380987, 1970894701, 2130838168, 2211917541, 2038369799, 4096045069,
    3085484598, 1469190366, 2901729396, 3094333381, 1580315538, 3263929325,
    2968336452, 4197584949, 3762227760, 3702557206, 3137476226, 2281339328,
    3109680687, 40972223, 1329545899, 2125667356, 3067116126, 934554178,
    110817752, 4277110342, 3174239868, 2592827471, 1676196484, 1308844201,
    1152275010, 4187446341,
];

const ALICE_Q: [u32; 32] = [
    142154815, 3829657883, 3416302947, 1873028418, 2583319603, 1575046557,
    3814816469, 3085575987, 246273661, 95917805, 1107800662, 2839628233,
    2881957275, 2317739884, 3600688946, 3249269260, 3089658721, 330703634,
    2232715585, 1102249581, 2296763527, 3633159723, 1637392743, 4122201912,
    2963659627, 4237160071, 1860423004, 577338685, 3818882975, 3098872882,
    1418907492, 3593261579,
];

const BOB_P: [u32; 32] = [
    3611397645, 2032322386, 2277506016, 430031992, 2122095571, 3437850461,
    2323134423, 728423380, 307642629, 3180571651, 3224282041, 2758616306,
    4213928843, 233023419, 2229760667, 2892469491, 4051347754, 1978619010,
    855203984, 1547668993, 3518383381, 3021004980, 3249135853, 1919007970,
    412324504, 3254381016, 149745419, 528297980, 2634676767, 2901451231,
    2982317669, 4214283209,
];

const BOB_Q: [u32; 32] = [
    1347947863, 2725336054, 3804548019, 4014679363, 578973802, 740383513,
    2047131388, 456426979, 1821391025, 1918451662, 739906359, 4051283530,
    1017032535, 1785742383, 1675708572, 3314158130, 4043319629, 2191510742,
    1780396141, 601778949, 4116738061, 1252365317, 2553863956, 1976232466,
    3761248354, 1205499950, 2335073916, 1080943988, 919269075, 1743463317,
    2415950202, 3976970607,
];

const CAROL_P: [u32; 32] = [
    1112085129, 4048196748, 3608978432, 4279265108, 1051969255, 275088840,
    2093246437, 3260238238, 3038564609, 2109254066, 2329269702, 2486853073,
    608632926, 2350860128, 3446735836, 3548873664, 307370580, 3982797188,
    1718869050, 1936373946, 2973019518, 3461491065, 126733204, 4212768260,
    1554243188, 2789862411, 4211945476, 3876326593, 3108121030, 1416838848,
    1456588191, 4287445128,
];

const CAROL_Q: [u32; 32] = [
    3883518697, 2744147864, 1550391528, 1295039856, 1272403245, 3291338920,
    1305881768, 731467340, 1819544238, 1775706229, 2468759438, 3729028836,
    4159728894, 38423524, 369180636, 335995542, 501208337, 3089372271,
    1758115836, 3356346987, 1069828127, 1383693889, 1072693057, 3435859562,
    1612258612, 479234945, 2487817119, 1209034683, 2169767783, 1866617015,
    2183586189, 4170983206,
];

const ALICE: ([u32; 32], [u32; 32]) = (ALICE_P, ALICE_Q);
const BOB: ([u32; 32], [u32; 32]) = (BOB_P, BOB_Q);
const CAROL: ([u32; 32], [u32; 32]) = (CAROL_P, CAROL_Q);

fn identity(primes: ([u32; 32], [u32; 32])) -> (RsaPrivateKey, PublicKey) {
    let secret = RsaPrivateKey::from_p_q(
        BigUint::from_slice(&primes.0),
        BigUint::from_slice(&primes.1),
        BigUint::from(65537u32),
    )
    .unwrap();
    let public = PublicKey::from_rsa(&RsaPublicKey::from(&secret)).unwrap();
    (secret, public)
}

fn plain(name: &str) -> PublicKey {
    PublicKey { pem: format!("key of {name}") }
}

fn member(name: &str, peer: u8) -> Participant {
    Participant { key: plain(name), alias: name.to_string(), peer: vec![peer] }
}

fn table(entries: &[(&str, i64)]) -> Vec<(String, i64)> {
    entries.iter().map(|(k, v)| (k.to_string(), *v)).collect()
}

fn leader_with(names: &[&str]) -> Node {
    let mut n = Node::new(plain(names[0]), names[0].to_string(), true);
    n.on_listening(vec![0]);
    for (i, name) in names.iter().enumerate().skip(1) {
        n.on_message(Msg::Join(plain(name), name.to_string()), vec![i as u8]);
    }
    n
}

#[test]
fn fingerprint_groups_are_little_endian_hex() {
    let d: Vec<u8> = (1u8..=32).collect();
    assert_eq!(fingerprint_of_digest(&d), "04030201 08070605 0c0b0a09 100f0e0d");
}

#[test]
fn fingerprint_hashes_the_key_text() {
    let k = plain("alice");
    let h = blake3::hash(k.pem.as_bytes());
    let b = h.as_bytes();
    let w = |i: usize| u32::from_le_bytes([b[i], b[i + 1], b[i + 2], b[i + 3]]);
    let expected = format!("{:08x} {:08x} {:08x} {:08x}", w(0), w(4), w(8), w(12));
    assert_eq!(k.fingerprint(), expected);
    assert_ne!(k.fingerprint(), plain("bob").fingerprint());
}

#[test]
fn public_key_text_round_trips() {
    let (secret, public) = identity(ALICE);
    assert!(!public.pem.is_empty());
    let back = public.to_rsa().unwrap();
    assert_eq!(back, RsaPublicKey::from(&secret));
    assert_eq!(plain("x").to_rsa().err(), Some(ProtocolError::InvalidPublicKey));
}

#[test]
fn sealed_shares_open_for_the_recipient() {
    let (alice_secret, alice) = identity(ALICE);
    let (bob_secret, bob) = identity(BOB);
    let local = table(&[("example1", 1000), ("example2", 1500)]);
    let shares = vec![-7, i64::MAX];
    let blob = seal_shares(&local, &shares, &bob.to_rsa().unwrap(), &alice_secret).unwrap();
    assert_eq!(blob.len(), 512 * 2);
    let opened = open_shares(&blob, &alice.to_rsa().unwrap(), &bob_secret).unwrap();
    assert_eq!(opened, table(&[("example1", -7), ("example2", i64::MAX)]));
}

#[test]
fn forged_or_misaligned_blobs_are_refused() {
    let (alice_secret, alice) = identity(ALICE);
    let (bob_secret, bob) = identity(BOB);
    let (_, carol) = identity(CAROL);
    let local = table(&[("k", 1)]);
    let mut blob = seal_shares(&local, &vec![5], &bob.to_rsa().unwrap(), &alice_secret).unwrap();
    assert_eq!(
        open_shares(&blob, &carol.to_rsa().unwrap(), &bob_secret),
        Err(ProtocolError::BadSignature)
    );
    assert_eq!(
        open_shares(&blob, &alice.to_rsa().unwrap(), &alice_secret),
        Err(ProtocolError::DecryptionFailed)
    );
    blob.pop();
    assert_eq!(
        open_shares(&blob, &alice.to_rsa().unwrap(), &bob_secret),
        Err(ProtocolError::MisalignedBlob)
    );
}

#[test]
fn too_long_key_cannot_be_sealed() {
    let (alice_secret, _) = identity(ALICE);
    let (_, bob) = identity(BOB);
    let long = "x".repeat(230);
    let local = vec![(long, 1i64)];
    assert_eq!(
        seal_shares(&local, &vec![1], &bob.to_rsa().unwrap(), &alice_secret),
        Err(ProtocolError::KeyTooLong)
    );
}

#[test]
fn shares_are_drawn_per_key() {
    let s = draw_shares(4);
    assert_eq!(s.len(), 4);
    assert_eq!(draw_shares(0).len(), 0);
}

#[test]
fn answers_are_classified() {
    assert_eq!(answer_of(""), Answer::Yes);
    assert_eq!(answer_of("  Y \n"), Answer::Yes);
    assert_eq!(answer_of("n"), Answer::No);
    assert_eq!(answer_of(" N"), Answer::No);
    assert_eq!(answer_of("maybe"), Answer::Unclear);
    assert_eq!(classify_answer("", ""), Answer::Yes);
    assert_eq!(classify_answer("yes", "yes"), Answer::Unclear);
}

#[test]
fn leader_needs_three_to_start() {
    let mut n = leader_with(&["ann", "ben"]);
    let acts = n.on_line(Answer::Yes);
    assert!(matches!(acts.as_slice(), [Action::Say(Notice::CannotStartYet)]));
    assert_eq!(n.phase, Phase::WaitingForParticipants);
    n.on_message(Msg::Join(plain("cat"), "cat".to_string()), vec![2]);
    let acts = n.on_line(Answer::Yes);
    assert!(matches!(
        acts.as_slice(),
        [Action::Say(Notice::Starting), Action::Publish(Msg::LobbyNowClosed)]
    ));
    assert_eq!(n.phase, Phase::SendingShares);
}

#[test]
fn follower_aborts_when_lobby_closes_too_small() {
    let mut f = Node::new(plain("ben"), "ben".to_string(), false);
    f.on_listening(vec![1]);
    f.on_message(Msg::Participants(vec![member("ann", 0), member("ben", 1)]), vec![0]);
    let acts = f.on_message(Msg::LobbyNowClosed, vec![0]);
    assert!(matches!(acts.as_slice(), [Action::Say(Notice::TooFewAtClose), Action::Exit(1)]));
}

#[test]
fn follower_confirms_or_declines() {
    let mut f = Node::new(plain("ben"), "ben".to_string(), false);
    let acts = f.on_listening(vec![1]);
    assert!(matches!(acts.as_slice(), [Action::Publish(Msg::Join(_, _)), Action::ShowRoster]));
    f.on_message(
        Msg::Participants(vec![member("ann", 0), member("ben", 1), member("cat", 2)]),
        vec![0],
    );
    f.on_message(Msg::LobbyNowClosed, vec![0]);
    assert_eq!(f.phase, Phase::ConfirmingParticipants);
    let acts = f.on_line(Answer::Unclear);
    assert!(matches!(acts.as_slice(), [Action::Say(Notice::InvalidAnswer)]));
    let acts = f.on_line(Answer::No);
    assert!(matches!(acts.as_slice(), [Action::Exit(0)]));
    f.on_line(Answer::Yes);
    assert_eq!(f.phase, Phase::SendingShares);
}

#[test]
fn roster_grows_and_followers_copy_it() {
    let mut n = leader_with(&["ann", "ben"]);
    assert_eq!(n.roster.len(), 2);
    let acts = n.on_message(Msg::Join(plain("cat"), "cat".to_string()), vec![2]);
    assert_eq!(n.roster.len(), 3);
    let published = match acts.into_iter().nth(1) {
        Some(Action::Publish(Msg::Participants(r))) => r,
        _ => panic!("the leader did not publish its roster"),
    };
    let mut f = Node::new(plain("ben"), "ben".to_string(), false);
    f.on_listening(vec![1]);
    f.on_message(Msg::Participants(published), vec![0]);
    let names: Vec<&str> = f.roster.iter().map(|p| p.alias.as_str()).collect();
    assert_eq!(names, vec!["ann", "ben", "cat"]);
    n.on_message(Msg::Join(plain("cat"), "cathy".to_string()), vec![2]);
    assert_eq!(n.roster.len(), 3);
    assert_eq!(n.roster[2].alias, "cathy");
}

#[test]
fn dropout_before_close_refreshes_roster() {
    let mut n = leader_with(&["ann", "ben", "cat", "dan"]);
    let acts = n.on_disconnect(vec![3], 2);
    assert_eq!(acts.len(), 4);
    assert!(matches!(&acts[0], Action::Say(Notice::Departed(name)) if name == "dan"));
    assert!(matches!(&acts[1], Action::Publish(Msg::Quit(peer, name)) if peer == &vec![3u8] && name == "dan"));
    assert!(matches!(&acts[3], Action::Publish(Msg::Participants(r)) if r.len() == 3));
    assert_eq!(n.roster.len(), 3);
    let acts = n.on_line(Answer::Yes);
    assert!(matches!(acts.as_slice(), [Action::Say(Notice::Starting), _]));
}

#[test]
fn dropout_leaving_too_few_blocks_start() {
    let mut n = leader_with(&["ann", "ben", "cat"]);
    n.on_disconnect(vec![2], 1);
    assert_eq!(n.roster.len(), 2);
    let acts = n.on_line(Answer::Yes);
    assert!(matches!(acts.as_slice(), [Action::Say(Notice::CannotStartYet)]));
}

#[test]
fn dropout_during_sharing_aborts() {
    let mut n = leader_with(&["ann", "ben", "cat"]);
    n.on_line(Answer::Yes);
    let acts = n.on_disconnect(vec![1], 1);
    assert!(matches!(acts.last(), Some(Action::Exit(1))));
    let mut f = Node::new(plain("ben"), "ben".to_string(), false);
    f.phase = Phase::SendingShares;
    let acts = f.on_disconnect(vec![9], 0);
    assert!(matches!(acts.as_slice(), [Action::Say(Notice::SomeoneLeft), Action::Exit(1)]));
}

#[test]
fn out_of_phase_messages_do_not_advance() {
    let mut n = leader_with(&["ann", "ben", "cat"]);
    let acts = n.on_message(Msg::LobbyNowClosed, vec![1]);
    assert!(matches!(acts.as_slice(), [Action::Say(Notice::NotForLeader)]));
    assert_eq!(n.phase, Phase::WaitingForParticipants);
    let acts = n.on_message(Msg::Sum(plain("ben"), table(&[("k", 1)])), vec![1]);
    assert!(matches!(acts.as_slice(), [Action::Say(Notice::UnexpectedSum), Action::Exit(1)]));
    n.on_line(Answer::Yes);
    let acts = n.on_message(Msg::Join(plain("eve"), "eve".to_string()), vec![5]);
    assert!(matches!(acts.as_slice(), [Action::Say(Notice::AlreadySharing)]));
    assert_eq!(n.roster.len(), 3);
}

#[test]
fn duplicate_share_is_kept_once() {
    let mut n = leader_with(&["ann", "ben", "cat"]);
    for _ in 0..2 {
        n.on_message(
            Msg::Share { from: plain("ben"), to: plain("ann"), share: vec![1, 2, 3] },
            vec![1],
        );
    }
    assert_eq!(n.received.len(), 1);
    assert_eq!(n.received[0].1, vec![1, 2, 3]);
    n.on_message(Msg::Share { from: plain("eve"), to: plain("ann"), share: vec![9] }, vec![4]);
    n.on_message(Msg::Share { from: plain("ben"), to: plain("cat"), share: vec![9] }, vec![1]);
    assert_eq!(n.received.len(), 1);
}

#[test]
fn duplicate_sum_is_kept_once() {
    let mut n = leader_with(&["ann", "ben", "cat"]);
    n.on_line(Answer::Yes);
    for _ in 0..2 {
        let acts = n.on_message(Msg::Sum(plain("ben"), table(&[("k", 7)])), vec![1]);
        assert!(acts.is_empty());
    }
    assert_eq!(n.sums.len(), 1);
    assert_eq!(n.sums[0].1, table(&[("k", 7)]));
}

#[test]
fn answers_ignore_unicode_white_space() {
    assert_eq!(answer_of("\u{3000}y\u{2003}"), Answer::Yes);
    assert_eq!(answer_of("\u{a0}\u{85}"), Answer::Yes);
    assert_eq!(answer_of("\u{200b}n"), Answer::Unclear);
}

#[test]
fn result_ends_the_benchmark() {
    let mut f = Node::new(plain("ben"), "ben".to_string(), false);
    f.phase = Phase::SendingShares;
    let acts = f.on_message(Msg::Result(table(&[("k", 30)])), vec![0]);
    assert!(matches!(acts.as_slice(), [Action::ShowResults(r), Action::Exit(0)] if r == &table(&[("k", 30)])));
}

#[test]
fn housekeeping_aborts_when_everyone_left() {
    let (secret, _) = identity(ALICE);
    let mut n = leader_with(&["ann", "ben", "cat"]);
    n.on_line(Answer::Yes);
    let acts = n.housekeeping(0, &table(&[("k", 1)]), &secret).unwrap();
    assert!(matches!(acts.as_slice(), [Action::Say(Notice::Cancelled), Action::Exit(1)]));
}

#[test]
fn malformed_share_blob_aborts_recipient() {
    let (bob_secret, bob) = identity(BOB);
    let (_, alice) = identity(ALICE);
    let (_, carol) = identity(CAROL);
    let mut f = Node::new(bob.clone(), "bob".to_string(), false);
    f.on_listening(vec![1]);
    f.on_message(
        Msg::Participants(vec![
            Participant { key: alice.clone(), alias: "alice".to_string(), peer: vec![0] },
            Participant { key: bob.clone(), alias: "bob".to_string(), peer: vec![1] },
            Participant { key: carol.clone(), alias: "carol".to_string(), peer: vec![2] },
        ]),
        vec![0],
    );
    f.on_message(Msg::LobbyNowClosed, vec![0]);
    f.on_line(Answer::Yes);
    let local = table(&[("k", 1)]);
    f.housekeeping(2, &local, &bob_secret).unwrap();
    f.on_message(Msg::Share { from: alice.clone(), to: bob.clone(), share: vec![0; 100] }, vec![0]);
    f.on_message(Msg::Share { from: carol.clone(), to: bob.clone(), share: vec![0; 512] }, vec![2]);
    assert_eq!(f.housekeeping(2, &local, &bob_secret).err(), Some(ProtocolError::MisalignedBlob));
}

#[test]
fn three_nodes_run_the_whole_exchange() {
    let people = [(ALICE, "alice"), (BOB, "bob"), (CAROL, "carol")];
    let ids: Vec<(RsaPrivateKey, PublicKey)> = people.iter().map(|(k, _)| identity(*k)).collect();
    let roster: Vec<Participant> = people
        .iter()
        .enumerate()
        .map(|(i, (_, name))| Participant {
            key: ids[i].1.clone(),
            alias: name.to_string(),
            peer: vec![i as u8],
        })
        .collect();
    let inputs = [
        table(&[("example1", 1000), ("example2", 1500), ("example3", 1800)]),
        table(&[("example1", 1000), ("example2", 1500), ("example3", 1800)]),
        table(&[("example1", 1000), ("example2", 1500), ("example3", 1800)]),
    ];
    let mut nodes: Vec<Node> = (0..3)
        .map(|i| {
            let mut n = Node::new(ids[i].1.clone(), people[i].1.to_string(), i == 0);
            n.on_listening(vec![i as u8]);
            n.on_message(Msg::Participants(roster.clone()), vec![0]);
            n.phase = Phase::SendingShares;
            n
        })
        .collect();
    let mut outbox = Vec::new();
    for i in 0..3 {
        let acts = nodes[i].housekeeping(2, &inputs[i], &ids[i].0).unwrap();
        assert_eq!(acts.len(), 2);
        outbox.extend(acts);
    }
    for act in outbox {
        if let Action::Publish(Msg::Share { from, to, share }) = act {
            assert_eq!(share.len(), 512 * 3);
            let j = (0..3).find(|j| ids[*j].1.pem == to.pem).unwrap();
            nodes[j].on_message(Msg::Share { from, to, share }, vec![9]);
        }
    }
    let mut sums = Vec::new();
    for i in 0..3 {
        let acts = nodes[i].housekeeping(2, &inputs[i], &ids[i].0).unwrap();
        for act in acts {
            if let Action::Publish(Msg::Sum(k, t)) = act {
                sums.push((k, t));
            }
        }
    }
    assert_eq!(sums.len(), 3);
    for (k, t) in sums.into_iter().skip(1) {
        nodes[0].on_message(Msg::Sum(k, t), vec![1]);
    }
    let acts = nodes[0].housekeeping(2, &inputs[0], &ids[0].0).unwrap();
    let expected = table(&[("example1", 3000), ("example2", 4500), ("example3", 5400)]);
    assert!(matches!(acts.as_slice(), [Action::Publish(Msg::Result(r)), Action::ShowResults(_)] if r == &expected));
    let again = nodes[0].housekeeping(2, &inputs[0], &ids[0].0).unwrap();
    assert!(again.is_empty());
}
