use schnorr_zk::modular::ModGroup;
use schnorr_zk::protocol::{derive_key_pair, Commitment, KeyPair};
use schnorr_zk::session::{run_interactive, run_non_interactive, Session, Stage};

fn group_101() -> ModGroup {
    ModGroup::new(101, 5).unwrap()
}

#[test]
fn interactive_session_walks_every_stage() {
    let grp = group_101();
    let key = derive_key_pair(&grp, 9);
    let mut s = Session::new(grp, key);
    assert_eq!(s.stage, Stage::Init);
    assert!(!s.respond());
    assert!(!s.receive_challenge(13));
    assert!(!s.verify());
    assert!(!s.commit_with_nonce(100));
    assert!(s.commit_with_nonce(7));
    assert_eq!(
        s.stage,
        Stage::Committed { commitment: Commitment { element: 52, randomness: 7 } }
    );
    assert!(!s.commit_with_nonce(8));
    assert!(!s.receive_challenge(100));
    assert!(s.receive_challenge(13));
    assert!(s.respond());
    assert_eq!(s.stage, Stage::Responded { element: 52, challenge: 13, response: 24 });
    assert!(s.verify());
    assert_eq!(s.stage, Stage::Verified { accepted: true });
    assert!(!s.verify());
    assert_eq!(s.commit(), Ok(false));
}

#[test]
fn session_with_wrong_key_rejects() {
    let grp = group_101();
    let key = KeyPair { secret: 10, public: 88 };
    let mut s = Session::new(grp, key);
    assert!(s.commit_with_nonce(7));
    assert!(s.receive_challenge(13));
    assert!(s.respond());
    assert!(s.verify());
    assert_eq!(s.stage, Stage::Verified { accepted: false });
}

#[test]
fn non_interactive_session_skips_to_responded() {
    let grp = group_101();
    let key = derive_key_pair(&grp, 9);
    let mut s = Session::new(grp, key);
    assert!(s.prove_with_nonce(7));
    assert_eq!(s.stage, Stage::Responded { element: 52, challenge: 76, response: 91 });
    assert!(s.verify());
    assert_eq!(s.stage, Stage::Verified { accepted: true });
}

#[test]
fn random_session_accepts() {
    let grp = group_101();
    let key = derive_key_pair(&grp, 42);
    for _ in 0..10 {
        let mut s = Session::new(grp, key);
        assert_eq!(s.commit(), Ok(true));
        assert_eq!(s.issue_random_challenge(), Ok(true));
        assert_eq!(s.issue_random_challenge(), Ok(false));
        assert!(s.respond());
        assert!(s.verify());
        assert_eq!(s.stage, Stage::Verified { accepted: true });
    }
}

#[test]
fn honest_runs_accept() {
    let grp = group_101();
    for x in [0u64, 9, 99] {
        let key = derive_key_pair(&grp, x);
        for nonce in [0u64, 7, 99] {
            assert!(run_non_interactive(grp, key, nonce));
            for c in [0u64, 1, 13, 99] {
                assert!(run_interactive(grp, key, nonce, c));
            }
        }
    }
}
