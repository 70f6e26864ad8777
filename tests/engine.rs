use cipher_logic::state::{CipherState, StateParts};
use cipher_logic::types::{
    CaseCreateParams, CipherError, CipherEvent, LegalCase, MemberRole, MessageMode, PrivacyLevel,
    user_details,
};

fn s(x: &str) -> String {
    x.to_string()
}

fn params(admin: &str, name: &str, client: Option<&str>) -> CaseCreateParams {
    CaseCreateParams {
        admin_id: s(admin),
        case_name: s(name),
        description: s("a dispute"),
        client_id: client.map(s),
        privacy_level: PrivacyLevel::Private,
        initial_docs: None,
    }
}

/// Opens a case with admin `alice` and client `carol`; returns its id.
fn open(st: &mut CipherState) -> String {
    match st.open_case(params("alice", "estate", Some("carol")), 7) {
        Ok(CipherEvent::CaseOpened { case_id }) => case_id,
        _ => panic!("case not opened"),
    }
}

fn case_of(st: &CipherState, user: &str, id: &str) -> LegalCase {
    st.list_cases_for_user(s(user))
        .unwrap()
        .into_iter()
        .find(|c| c.case_id == id)
        .expect("case listed")
}

// ---------------------------------------------------------------- participants

#[test]
fn participants_client_then_lawyers() {
    let mut st = CipherState::init();
    let id = open(&mut st);
    st.add_case_member(s("alice"), id.clone(), s("bob"), s("lawyer")).unwrap();
    let c = case_of(&st, "alice", &id);
    assert_eq!(c.get_participants(), vec![s("carol"), s("alice"), s("bob")]);
}

#[test]
fn participants_name_a_client_who_is_also_a_lawyer_once() {
    let mut st = CipherState::init();
    let id = open(&mut st);
    st.add_case_member(s("alice"), id.clone(), s("carol"), s("lawyer")).unwrap();
    st.add_case_member(s("alice"), id.clone(), s("bob"), s("lawyer")).unwrap();
    let c = case_of(&st, "alice", &id);
    assert_eq!(c.lawyer_ids, vec![s("alice"), s("carol"), s("bob")]);
    assert_eq!(c.get_participants(), vec![s("carol"), s("alice"), s("bob")]);
}

#[test]
fn participants_without_client() {
    let mut st = CipherState::init();
    st.open_case(params("alice", "estate", None), 7).unwrap();
    let c = case_of(&st, "alice", "estate_7");
    assert_eq!(c.get_participants(), vec![s("alice")]);
}

// ---------------------------------------------------------------- cases

#[test]
fn open_case_makes_creator_admin_and_lawyer() {
    let mut st = CipherState::init();
    let id = open(&mut st);
    assert_eq!(id, "estate_7");
    let c = case_of(&st, "alice", &id);
    assert_eq!(c.admin_id, "alice");
    assert_eq!(c.lawyer_ids, vec![s("alice")]);
    assert_eq!(c.client_id, "carol");
    assert_eq!(c.status, "active");
    assert!(c.related_documents.is_empty());
}

#[test]
fn open_case_id_has_full_timestamp() {
    let mut st = CipherState::init();
    let ev = st.open_case(params("alice", "estate", None), 18446744073709551615).unwrap();
    assert!(matches!(ev, CipherEvent::CaseOpened { case_id } if case_id == "estate_18446744073709551615"));
    let ev = st.open_case(params("alice", "estate", None), 0).unwrap();
    assert!(matches!(ev, CipherEvent::CaseOpened { case_id } if case_id == "estate_0"));
}

#[test]
fn open_case_rejects_missing_fields() {
    let mut st = CipherState::init();
    assert_eq!(st.open_case(params("alice", "", None), 1).unwrap_err(), CipherError::Validation);
    assert_eq!(st.open_case(params("", "estate", None), 1).unwrap_err(), CipherError::Validation);
    let mut p = params("alice", "estate", None);
    p.description = s("");
    assert_eq!(st.open_case(p, 1).unwrap_err(), CipherError::Validation);
    assert!(st.list_cases_for_user(s("alice")).unwrap().is_empty());
}

#[test]
fn open_case_same_name_and_time_gets_a_fresh_id() {
    let mut st = CipherState::init();
    open(&mut st);
    let ev = st.open_case(params("dave", "estate", None), 7).unwrap();
    assert!(matches!(ev, CipherEvent::CaseOpened { case_id } if case_id == "estate_7+"));
    let ev = st.open_case(params("erin", "estate", None), 7).unwrap();
    assert!(matches!(ev, CipherEvent::CaseOpened { case_id } if case_id == "estate_7++"));
    assert_eq!(case_of(&st, "alice", "estate_7").admin_id, "alice");
    let c = case_of(&st, "dave", "estate_7+");
    assert_eq!(c.admin_id, "dave");
    assert_eq!(c.lawyer_ids, vec![s("dave")]);
}

#[test]
fn add_lawyer_twice_lists_once() {
    let mut st = CipherState::init();
    let id = open(&mut st);
    let ev = st.add_case_member(s("carol"), id.clone(), s("bob"), s("lawyer")).unwrap();
    assert!(matches!(ev, CipherEvent::MemberAdded { member_id, role, .. } if member_id == "bob" && role == "lawyer"));
    st.add_case_member(s("alice"), id.clone(), s("bob"), s("lawyer")).unwrap();
    assert_eq!(case_of(&st, "bob", &id).lawyer_ids, vec![s("alice"), s("bob")]);
}

#[test]
fn add_client_into_filled_slot_conflicts() {
    let mut st = CipherState::init();
    let id = open(&mut st);
    assert_eq!(
        st.add_case_member(s("alice"), id.clone(), s("erin"), s("client")).unwrap_err(),
        CipherError::Conflict
    );
    assert_eq!(case_of(&st, "alice", &id).client_id, "carol");
}

#[test]
fn add_client_into_empty_slot() {
    let mut st = CipherState::init();
    st.open_case(params("alice", "estate", None), 7).unwrap();
    st.add_case_member(s("alice"), s("estate_7"), s("erin"), s("client")).unwrap();
    assert_eq!(case_of(&st, "erin", "estate_7").client_id, "erin");
}

#[test]
fn add_member_with_unknown_role_is_invalid() {
    let mut st = CipherState::init();
    let id = open(&mut st);
    assert_eq!(
        st.add_case_member(s("alice"), id.clone(), s("bob"), s("judge")).unwrap_err(),
        CipherError::Validation
    );
    assert_eq!(
        st.add_case_member(s("alice"), id, s("bob"), s("Lawyer")).unwrap_err(),
        CipherError::Validation
    );
}

#[test]
fn add_member_needs_a_member_and_a_case() {
    let mut st = CipherState::init();
    let id = open(&mut st);
    assert_eq!(
        st.add_case_member(s("mallory"), id, s("mallory"), s("lawyer")).unwrap_err(),
        CipherError::Authorization
    );
    assert_eq!(
        st.add_case_member(s("alice"), s("nope"), s("bob"), s("lawyer")).unwrap_err(),
        CipherError::NotFound
    );
}

#[test]
fn admin_stays_a_lawyer_after_additions() {
    let mut st = CipherState::init();
    let id = open(&mut st);
    for m in ["bob", "alice", "dan", "bob"] {
        st.add_case_member(s("alice"), id.clone(), s(m), s("lawyer")).unwrap();
    }
    let _ = st.add_case_member(s("alice"), id.clone(), s("x"), s("client"));
    let c = case_of(&st, "alice", &id);
    assert!(c.lawyer_ids.contains(&c.admin_id));
    assert_eq!(c.lawyer_ids, vec![s("alice"), s("bob"), s("dan")]);
}

#[test]
fn members_list_lawyers_then_client() {
    let mut st = CipherState::init();
    let id = open(&mut st);
    st.add_case_member(s("alice"), id.clone(), s("bob"), s("lawyer")).unwrap();
    let ms = st.list_case_members(id.clone(), s("carol")).unwrap();
    let got: Vec<(String, MemberRole, bool)> =
        ms.into_iter().map(|m| (m.member_id, m.role, m.is_admin)).collect();
    assert_eq!(
        got,
        vec![
            (s("alice"), MemberRole::Lawyer, true),
            (s("bob"), MemberRole::Lawyer, false),
            (s("carol"), MemberRole::Client, false),
        ]
    );
    assert_eq!(st.list_case_members(id, s("zed")).unwrap_err(), CipherError::Authorization);
    assert_eq!(st.list_case_members(s("nope"), s("alice")).unwrap_err(), CipherError::NotFound);
}

#[test]
fn cases_listed_by_membership() {
    let mut st = CipherState::init();
    open(&mut st);
    st.open_case(params("dave", "lease", None), 8).unwrap();
    let ids = |u: &str| -> Vec<String> {
        st.list_cases_for_user(s(u)).unwrap().into_iter().map(|c| c.case_id).collect()
    };
    assert_eq!(ids("alice"), vec![s("estate_7")]);
    assert_eq!(ids("carol"), vec![s("estate_7")]);
    assert_eq!(ids("dave"), vec![s("lease_8")]);
    assert!(ids("zed").is_empty());
    assert!(ids("").is_empty());
}

// ---------------------------------------------------------------- documents

fn doc_access(st: &CipherState, owner: &str, hash: &str) -> Vec<String> {
    st.get_accessible_documents(s(owner))
        .unwrap()
        .into_iter()
        .find(|d| d.document_hash == hash)
        .expect("document readable")
        .access_list
}

#[test]
fn stored_document_is_readable_by_owner_only() {
    let mut st = CipherState::init();
    let ev = st.store_document(vec![1, 2, 3], s("h1"), s("pdf"), s("carol"), 5).unwrap();
    assert!(matches!(ev, CipherEvent::DocumentUploaded { doc_hash, doc_type } if doc_hash == "h1" && doc_type == "pdf"));
    let docs = st.get_accessible_documents(s("carol")).unwrap();
    assert_eq!(docs.len(), 1);
    assert_eq!(docs[0].owner_id, "carol");
    assert_eq!(docs[0].access_list, vec![s("carol")]);
    assert_eq!(docs[0].encrypted_content, vec![1, 2, 3]);
    assert_eq!(docs[0].case_id, None);
    assert_eq!(docs[0].timestamp, 5);
    assert!(st.get_accessible_documents(s("bob")).unwrap().is_empty());
}

#[test]
fn storing_another_owners_hash_conflicts() {
    let mut st = CipherState::init();
    st.store_document(vec![1], s("h1"), s("pdf"), s("carol"), 5).unwrap();
    assert_eq!(
        st.store_document(vec![2], s("h1"), s("pdf"), s("mallory"), 6).unwrap_err(),
        CipherError::Conflict
    );
    assert!(st.get_accessible_documents(s("mallory")).unwrap().is_empty());
}

#[test]
fn owner_storing_again_replaces_the_document() {
    let mut st = CipherState::init();
    st.store_document(vec![1], s("h1"), s("pdf"), s("carol"), 5).unwrap();
    st.grant_access(s("h1"), s("bob"), s("carol")).unwrap();
    st.store_document(vec![2], s("h1"), s("png"), s("carol"), 6).unwrap();
    let docs = st.get_accessible_documents(s("carol")).unwrap();
    assert_eq!(docs.len(), 1);
    assert_eq!(docs[0].encrypted_content, vec![2]);
    assert_eq!(docs[0].document_type, "png");
    assert_eq!(docs[0].access_list, vec![s("carol")]);
    assert_eq!(docs[0].timestamp, 6);
}

#[test]
fn grant_needs_owner_and_document() {
    let mut st = CipherState::init();
    st.store_document(vec![1], s("h1"), s("pdf"), s("carol"), 5).unwrap();
    assert_eq!(st.grant_access(s("h1"), s("bob"), s("bob")).unwrap_err(), CipherError::Authorization);
    assert_eq!(st.grant_access(s("h9"), s("bob"), s("carol")).unwrap_err(), CipherError::NotFound);
    assert!(st.get_accessible_documents(s("bob")).unwrap().is_empty());
}

#[test]
fn granting_twice_is_granting_once() {
    let mut st = CipherState::init();
    st.store_document(vec![1], s("h1"), s("pdf"), s("carol"), 5).unwrap();
    st.grant_access(s("h1"), s("bob"), s("carol")).unwrap();
    let once = doc_access(&st, "carol", "h1");
    st.grant_access(s("h1"), s("bob"), s("carol")).unwrap();
    assert_eq!(doc_access(&st, "carol", "h1"), once);
    assert_eq!(once, vec![s("carol"), s("bob")]);
    assert_eq!(st.get_accessible_documents(s("bob")).unwrap().len(), 1);
}

#[test]
fn granting_to_a_case_admits_its_members_at_that_moment() {
    let mut st = CipherState::init();
    let id = open(&mut st);
    st.add_case_member(s("alice"), id.clone(), s("bob"), s("lawyer")).unwrap();
    st.store_document(vec![1], s("h1"), s("pdf"), s("carol"), 5).unwrap();
    st.grant_access(s("h1"), id.clone(), s("carol")).unwrap();
    assert_eq!(doc_access(&st, "carol", "h1"), vec![s("carol"), s("alice"), s("bob")]);
    st.grant_access(s("h1"), id.clone(), s("carol")).unwrap();
    assert_eq!(doc_access(&st, "carol", "h1"), vec![s("carol"), s("alice"), s("bob")]);
    st.add_case_member(s("alice"), id, s("dan"), s("lawyer")).unwrap();
    assert!(st.get_accessible_documents(s("dan")).unwrap().is_empty());
}

#[test]
fn revoking_oneself_keeps_the_owner_listed() {
    let mut st = CipherState::init();
    st.store_document(vec![1], s("h1"), s("pdf"), s("carol"), 5).unwrap();
    st.grant_access(s("h1"), s("bob"), s("carol")).unwrap();
    st.revoke_consent(s("carol"), s("carol")).unwrap();
    assert_eq!(doc_access(&st, "carol", "h1"), vec![s("carol"), s("bob")]);
}

#[test]
fn owner_stays_on_access_list() {
    let mut st = CipherState::init();
    st.store_document(vec![1], s("h1"), s("pdf"), s("carol"), 5).unwrap();
    st.grant_access(s("h1"), s("bob"), s("carol")).unwrap();
    st.grant_access(s("h1"), s("carol"), s("carol")).unwrap();
    st.revoke_consent(s("carol"), s("bob")).unwrap();
    assert_eq!(doc_access(&st, "carol", "h1"), vec![s("carol")]);
}

#[test]
fn upload_into_case_links_the_document() {
    let mut st = CipherState::init();
    let id = open(&mut st);
    st.upload_document_case(vec![9], s("h1"), s("pdf"), id.clone(), s("carol"), 3).unwrap();
    st.upload_document_case(vec![8], s("h2"), s("png"), id.clone(), s("alice"), 4).unwrap();
    assert_eq!(case_of(&st, "alice", &id).related_documents, vec![s("h1"), s("h2")]);
    let docs = st.list_case_documents(id.clone(), s("alice")).unwrap();
    let hashes: Vec<String> = docs.iter().map(|d| d.document_hash.clone()).collect();
    assert_eq!(hashes, vec![s("h1"), s("h2")]);
    assert_eq!(docs[0].owner_id, "carol");
    assert_eq!(docs[0].case_id, Some(id.clone()));
    assert_eq!(docs[0].access_list, vec![s("carol")]);
}

#[test]
fn upload_needs_member_case_and_no_other_owner() {
    let mut st = CipherState::init();
    let id = open(&mut st);
    assert_eq!(
        st.upload_document_case(vec![9], s("h1"), s("pdf"), id.clone(), s("zed"), 3).unwrap_err(),
        CipherError::Authorization
    );
    assert_eq!(
        st.upload_document_case(vec![9], s("h1"), s("pdf"), s("nope"), s("alice"), 3).unwrap_err(),
        CipherError::NotFound
    );
    st.store_document(vec![1], s("h1"), s("pdf"), s("carol"), 5).unwrap();
    assert_eq!(
        st.upload_document_case(vec![9], s("h1"), s("pdf"), id.clone(), s("alice"), 3).unwrap_err(),
        CipherError::Conflict
    );
    assert!(case_of(&st, "alice", &id).related_documents.is_empty());
}

#[test]
fn upload_of_a_document_tied_to_another_case_conflicts() {
    let mut st = CipherState::init();
    let id = open(&mut st);
    st.open_case(params("alice", "lease", None), 8).unwrap();
    st.upload_document_case(vec![9], s("h1"), s("pdf"), id.clone(), s("alice"), 3).unwrap();
    assert_eq!(
        st.upload_document_case(vec![9], s("h1"), s("pdf"), s("lease_8"), s("alice"), 4).unwrap_err(),
        CipherError::Conflict
    );
    st.upload_document_case(vec![7], s("h1"), s("pdf"), id.clone(), s("alice"), 5).unwrap();
    assert_eq!(case_of(&st, "alice", &id).related_documents, vec![s("h1")]);
    let docs = st.list_case_documents(id, s("alice")).unwrap();
    assert_eq!(docs[0].encrypted_content, vec![7]);
}

#[test]
fn case_documents_skip_dangling_hashes() {
    let mut st = CipherState::init();
    let mut p = params("alice", "estate", None);
    p.initial_docs = Some(vec![s("gone"), s("h1")]);
    st.open_case(p, 7).unwrap();
    st.upload_document_case(vec![9], s("h1"), s("pdf"), s("estate_7"), s("alice"), 3).unwrap();
    let docs = st.list_case_documents(s("estate_7"), s("alice")).unwrap();
    assert_eq!(docs.len(), 1);
    assert_eq!(docs[0].document_hash, "h1");
    assert_eq!(
        case_of(&st, "alice", "estate_7").related_documents,
        vec![s("gone"), s("h1")]
    );
    assert_eq!(
        st.list_case_documents(s("estate_7"), s("zed")).unwrap_err(),
        CipherError::Authorization
    );
    assert_eq!(st.list_case_documents(s("x"), s("alice")).unwrap_err(), CipherError::NotFound);
}

// ---------------------------------------------------------------- consent

#[test]
fn revoking_consent_cascades_to_owned_documents() {
    let mut st = CipherState::init();
    st.store_document(vec![1], s("d1"), s("pdf"), s("carol"), 5).unwrap();
    st.store_document(vec![2], s("d2"), s("pdf"), s("carol"), 5).unwrap();
    st.store_document(vec![3], s("d3"), s("pdf"), s("erin"), 5).unwrap();
    st.grant_access(s("d1"), s("lena"), s("carol")).unwrap();
    st.grant_access(s("d2"), s("bob"), s("carol")).unwrap();
    st.grant_access(s("d3"), s("lena"), s("erin")).unwrap();
    let before_d2 = doc_access(&st, "carol", "d2");
    let ev = st.revoke_consent(s("carol"), s("lena")).unwrap();
    assert!(matches!(ev, CipherEvent::ConsentRevoked { client_id, lawyer_id } if client_id == "carol" && lawyer_id == "lena"));
    assert_eq!(doc_access(&st, "carol", "d1"), vec![s("carol")]);
    assert_eq!(doc_access(&st, "carol", "d2"), before_d2);
    assert_eq!(doc_access(&st, "erin", "d3"), vec![s("erin"), s("lena")]);
    let lena: Vec<String> = st
        .get_accessible_documents(s("lena"))
        .unwrap()
        .into_iter()
        .map(|d| d.document_hash)
        .collect();
    assert_eq!(lena, vec![s("d3")]);
    st.revoke_consent(s("carol"), s("lena")).unwrap();
    assert_eq!(doc_access(&st, "carol", "d1"), vec![s("carol")]);
}

// ---------------------------------------------------------------- messages

#[test]
fn only_members_may_send() {
    let mut st = CipherState::init();
    let id = open(&mut st);
    st.add_case_member(s("alice"), id.clone(), s("bob"), s("lawyer")).unwrap();
    assert_eq!(
        st.send_message(s("zed"), id.clone(), vec![1], vec![2], MessageMode::Persistent, 1).unwrap_err(),
        CipherError::Authorization
    );
    assert_eq!(
        st.send_message(s("carol"), s("nope"), vec![1], vec![2], MessageMode::Persistent, 1).unwrap_err(),
        CipherError::NotFound
    );
    for sender in ["carol", "alice", "bob"] {
        st.send_message(s(sender), id.clone(), vec![1], vec![2], MessageMode::Persistent, 1).unwrap();
    }
    assert_eq!(st.get_case_messages(id, s("alice")).unwrap().len(), 3);
}

#[test]
fn message_is_addressed_to_everyone_in_the_case() {
    let mut st = CipherState::init();
    let id = open(&mut st);
    let ev = st.send_message(s("carol"), id.clone(), vec![1, 2], vec![3], MessageMode::Vanish, 11).unwrap();
    match ev {
        CipherEvent::MessageSent { case_id, sender, message } => {
            assert_eq!(case_id, id);
            assert_eq!(sender, "carol");
            assert_eq!(message.recipient_ids, vec![s("carol"), s("alice")]);
            assert_eq!(message.ciphertext, vec![1, 2]);
            assert_eq!(message.iv, vec![3]);
            assert_eq!(message.timestamp, 11);
            assert!(message.read_receipts.is_empty());
        }
        _ => panic!("wrong event"),
    }
}

#[test]
fn persistent_message_read_by_all_keeps_receipts() {
    let mut st = CipherState::init();
    let id = open(&mut st);
    st.add_case_member(s("alice"), id.clone(), s("bob"), s("lawyer")).unwrap();
    st.send_message(s("alice"), id.clone(), vec![1], vec![2], MessageMode::Persistent, 1).unwrap();
    for r in ["carol", "alice", "bob"] {
        st.mark_message_read(id.clone(), 0, s(r)).unwrap();
    }
    st.mark_message_read(id.clone(), 0, s("bob")).unwrap();
    let log = st.get_case_messages(id, s("carol")).unwrap();
    assert_eq!(log.len(), 1);
    assert_eq!(log[0].read_receipts, vec![s("carol"), s("alice"), s("bob")]);
    assert_eq!(log[0].recipient_ids, vec![s("carol"), s("alice"), s("bob")]);
}

#[test]
fn vanish_message_leaves_each_reader_then_the_log() {
    let mut st = CipherState::init();
    let id = open(&mut st);
    st.send_message(s("carol"), id.clone(), vec![1], vec![2], MessageMode::Vanish, 1).unwrap();
    st.mark_message_read(id.clone(), 0, s("carol")).unwrap();
    let log = st.get_case_messages(id.clone(), s("alice")).unwrap();
    assert_eq!(log.len(), 1);
    assert_eq!(log[0].recipient_ids, vec![s("alice")]);
    assert_eq!(log[0].read_receipts, vec![s("carol")]);
    assert_eq!(
        st.mark_message_read(id.clone(), 0, s("carol")).unwrap_err(),
        CipherError::Authorization
    );
    st.mark_message_read(id.clone(), 0, s("alice")).unwrap();
    assert_eq!(st.get_case_messages(id, s("alice")).unwrap().len(), 0);
}

#[test]
fn vanish_deletion_shifts_later_messages() {
    let mut st = CipherState::init();
    st.open_case(params("alice", "estate", None), 7).unwrap();
    let id = s("estate_7");
    st.send_message(s("alice"), id.clone(), vec![1], vec![0], MessageMode::Vanish, 1).unwrap();
    st.send_message(s("alice"), id.clone(), vec![2], vec![0], MessageMode::Persistent, 2).unwrap();
    st.mark_message_read(id.clone(), 0, s("alice")).unwrap();
    let log = st.get_case_messages(id.clone(), s("alice")).unwrap();
    assert_eq!(log.len(), 1);
    assert_eq!(log[0].ciphertext, vec![2]);
    assert_eq!(st.mark_message_read(id, 1, s("alice")).unwrap_err(), CipherError::NotFound);
}

#[test]
fn visible_messages_hide_what_vanished_for_the_reader() {
    let mut st = CipherState::init();
    let id = open(&mut st);
    st.send_message(s("carol"), id.clone(), vec![1], vec![0], MessageMode::Vanish, 1).unwrap();
    st.send_message(s("carol"), id.clone(), vec![2], vec![0], MessageMode::Persistent, 2).unwrap();
    st.mark_message_read(id.clone(), 0, s("alice")).unwrap();
    let seen: Vec<Vec<u8>> = st
        .get_visible_messages(id.clone(), s("alice"))
        .unwrap()
        .into_iter()
        .map(|m| m.ciphertext)
        .collect();
    assert_eq!(seen, vec![vec![2]]);
    assert_eq!(st.get_visible_messages(id.clone(), s("carol")).unwrap().len(), 2);
    assert_eq!(st.get_case_messages(id.clone(), s("alice")).unwrap().len(), 2);
    assert_eq!(st.get_visible_messages(id.clone(), s("zed")).unwrap_err(), CipherError::Authorization);
    assert_eq!(st.get_case_messages(id, s("zed")).unwrap_err(), CipherError::Authorization);
    assert_eq!(st.get_visible_messages(s("nope"), s("alice")).unwrap_err(), CipherError::NotFound);
}

#[test]
fn a_later_member_is_not_a_recipient_of_earlier_messages() {
    let mut st = CipherState::init();
    let id = open(&mut st);
    st.send_message(s("carol"), id.clone(), vec![1], vec![0], MessageMode::Persistent, 1).unwrap();
    st.add_case_member(s("alice"), id.clone(), s("bob"), s("lawyer")).unwrap();
    assert!(st.get_visible_messages(id.clone(), s("bob")).unwrap().is_empty());
    assert_eq!(
        st.mark_message_read(id.clone(), 0, s("bob")).unwrap_err(),
        CipherError::Authorization
    );
    assert_eq!(st.mark_message_read(s("nope"), 0, s("bob")).unwrap_err(), CipherError::NotFound);
}

// ---------------------------------------------------------------- user details

fn details(user: &str, name: Option<&str>, access: &[&str]) -> user_details {
    user_details {
        user_id: s(user),
        name: name.map(s),
        phone: None,
        email: None,
        wallet_id: None,
        access_list: access.iter().map(|a| s(a)).collect(),
    }
}

#[test]
fn users_update_only_their_own_details() {
    let mut st = CipherState::init();
    assert_eq!(
        st.update_user_details(details("carol", Some("Carol"), &[]), s("mallory")).unwrap_err(),
        CipherError::Authorization
    );
    st.update_user_details(details("carol", Some("Carol"), &["bob"]), s("carol")).unwrap();
    let mut d = details("carol", None, &[]);
    d.phone = Some(s("555"));
    st.update_user_details(d, s("carol")).unwrap();
    let got = st.get_user_details(s("carol"), s("carol")).unwrap();
    assert_eq!(got.name, Some(s("Carol")));
    assert_eq!(got.phone, Some(s("555")));
    assert_eq!(got.access_list, vec![s("bob")]);
}

#[test]
fn details_readable_by_owner_and_admitted_users() {
    let mut st = CipherState::init();
    assert_eq!(st.get_user_details(s("carol"), s("carol")).unwrap_err(), CipherError::NotFound);
    assert_eq!(
        st.grant_user_details_access(s("bob"), s("carol")).unwrap_err(),
        CipherError::NotFound
    );
    st.update_user_details(details("carol", Some("Carol"), &[]), s("carol")).unwrap();
    assert_eq!(st.get_user_details(s("carol"), s("bob")).unwrap_err(), CipherError::Authorization);
    st.grant_user_details_access(s("bob"), s("carol")).unwrap();
    st.grant_user_details_access(s("bob"), s("carol")).unwrap();
    assert_eq!(st.get_user_details(s("carol"), s("bob")).unwrap().access_list, vec![s("bob")]);
    let shared = st.get_accessible_user_details(s("bob")).unwrap();
    assert_eq!(shared.len(), 1);
    assert_eq!(shared[0].user_id, "carol");
    assert!(st.get_accessible_user_details(s("carol")).unwrap().is_empty());
}

#[test]
fn access_requests_are_kept_once_each() {
    let mut st = CipherState::init();
    assert_eq!(
        st.request_user_details_access(s("carol"), s("carol")).unwrap_err(),
        CipherError::Validation
    );
    st.request_user_details_access(s("carol"), s("bob")).unwrap();
    st.request_user_details_access(s("carol"), s("dan")).unwrap();
    st.request_user_details_access(s("carol"), s("bob")).unwrap();
    assert_eq!(st.get_user_access_requests(s("carol")).unwrap(), vec![s("bob"), s("dan")]);
    assert!(st.get_user_access_requests(s("bob")).unwrap().is_empty());
}

#[test]
fn analysis_update_needs_a_known_analysis() {
    let mut st = CipherState::init();
    assert_eq!(
        st.update_ai_analysis(s("a1"), s("fine"), 0, vec![]).unwrap_err(),
        CipherError::NotFound
    );
}

// ---------------------------------------------------------------- storage

#[test]
fn state_survives_a_round_trip_through_parts() {
    let mut st = CipherState::init();
    let id = open(&mut st);
    st.store_document(vec![1], s("h1"), s("pdf"), s("carol"), 5).unwrap();
    st.send_message(s("carol"), id.clone(), vec![1], vec![2], MessageMode::Persistent, 1).unwrap();
    let parts = st.into_parts();
    assert_eq!(parts.cases.len(), 1);
    assert_eq!(parts.documents.len(), 1);
    assert_eq!(parts.messages.len(), 1);
    let back = CipherState::from_parts(parts).unwrap();
    assert_eq!(back.get_case_messages(id.clone(), s("alice")).unwrap().len(), 1);
    assert_eq!(case_of(&back, "carol", &id).admin_id, "alice");
}

#[test]
fn parts_with_a_repeated_key_conflict() {
    let mut st = CipherState::init();
    open(&mut st);
    let mut parts = st.into_parts();
    let again = CipherState::from_parts(StateParts {
        cases: Vec::new(),
        documents: Vec::new(),
        messages: Vec::new(),
        consents: Vec::new(),
        ai_results: Vec::new(),
        payments: Vec::new(),
        user_details: Vec::new(),
        access_requests: vec![(s("carol"), vec![s("bob")]), (s("carol"), vec![s("dan")])],
    });
    assert_eq!(again.err(), Some(CipherError::Conflict));
    parts.cases[0].1.lawyer_ids = vec![s("bob")];
    assert_eq!(CipherState::from_parts(parts).err(), Some(CipherError::Validation));
}

#[test]
fn parts_breaking_a_rule_are_invalid() {
    let mut st = CipherState::init();
    open(&mut st);
    st.store_document(vec![1], s("h1"), s("pdf"), s("carol"), 5).unwrap();
    let mut parts = st.into_parts();
    parts.cases[0].1.lawyer_ids = vec![s("alice"), s("alice")];
    assert_eq!(CipherState::from_parts(parts).err(), Some(CipherError::Validation));
    let mut st = CipherState::init();
    st.store_document(vec![1], s("h1"), s("pdf"), s("carol"), 5).unwrap();
    let mut parts = st.into_parts();
    parts.documents[0].1.access_list = vec![s("bob")];
    assert_eq!(CipherState::from_parts(parts).err(), Some(CipherError::Validation));
}
