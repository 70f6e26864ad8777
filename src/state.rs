//! The engine: every operation checks who is asking, then commits or refuses as a whole.
use vstd::prelude::*;
use vstd::string::*;
use crate::ids::{add_id, append_decimal, contains_id, ids_distinct, push_unique, str_equals, without_id};
use crate::model::{
    active_status, add_member_outcome, addressed_to, admins_are_lawyers, answered, case_documents_result,
    case_key, fresh_case_key, first_free, longest_key, lemma_long_key_free, pluses, case_messages_result, client_role, committed, consent_key, docs_for, grant_details_outcome,
    grant_outcome, involves, lawyer_role, log_after_read, mark_read_outcome, members_of, members_result,
    merged_details, new_message, open_case_outcome, opened_case, readable_by,
    request_details_outcome, requests_of, revoke_outcome, revoked_entry, send_outcome,
    shares_details_with, store_outcome, update_analysis_outcome, update_details_outcome, upload_outcome,
    user_details_result, visible_messages_result, lawyers_distinct, owners_listed, lemma_put_case, lemma_case_admin, StateView,
};
use crate::table::{lookup, unique_keys, values_of, Table};
use crate::types::{
    clone_ids, clone_messages, ids_view, AIAnalysisResult, CaseCreateParams, CaseMember, CipherError,
    CipherEvent, EncryptedMessage, LegalCase, LegalConsent, LegalDocument, MemberRole, MessageMode,
    PaymentStatus, user_details,
};

verus! {

/// Cases, documents, message logs, consents and the records around them.
pub struct CipherState {
    messages: Table<Vec<EncryptedMessage>>,
    documents: Table<LegalDocument>,
    cases: Table<LegalCase>,
    consents: Table<LegalConsent>,
    ai_results: Table<AIAnalysisResult>,
    payments: Table<PaymentStatus>,
    user_details: Table<user_details>,
    access_requests: Table<Vec<String>>,
}

/// Every table's entries in order: the state as handed to storage and back.
pub struct StateParts {
    pub messages: Vec<(String, Vec<EncryptedMessage>)>,
    pub documents: Vec<(String, LegalDocument)>,
    pub cases: Vec<(String, LegalCase)>,
    pub consents: Vec<(String, LegalConsent)>,
    pub ai_results: Vec<(String, AIAnalysisResult)>,
    pub payments: Vec<(String, PaymentStatus)>,
    pub user_details: Vec<(String, user_details)>,
    pub access_requests: Vec<(String, Vec<String>)>,
}

pub open spec fn parts_view(p: StateParts) -> StateView {
    StateView {
        messages: p.messages.deep_view(),
        documents: p.documents.deep_view(),
        cases: p.cases.deep_view(),
        consents: p.consents.deep_view(),
        ai_results: p.ai_results.deep_view(),
        payments: p.payments.deep_view(),
        user_details: p.user_details.deep_view(),
        access_requests: p.access_requests.deep_view(),
    }
}

/// Some table of `v` has two entries under one key.
pub open spec fn has_duplicate_keys(v: StateView) -> bool {
    !(unique_keys(v.messages) && unique_keys(v.documents) && unique_keys(v.cases) && unique_keys(
        v.consents,
    ) && unique_keys(v.ai_results) && unique_keys(v.payments) && unique_keys(v.user_details)
        && unique_keys(v.access_requests))
}

impl View for CipherState {
    type V = StateView;

    closed spec fn view(&self) -> StateView {
        StateView {
            messages: self.messages@,
            documents: self.documents@,
            cases: self.cases@,
            consents: self.consents@,
            ai_results: self.ai_results@,
            payments: self.payments@,
            user_details: self.user_details@,
            access_requests: self.access_requests@,
        }
    }
}

impl CipherState {
    pub open spec fn wf(&self) -> bool {
        self@.wf()
    }

    /// An empty engine.
    pub fn init() -> (r: Self)
        ensures
            r.wf(),
            r@.messages.len() == 0,
            r@.documents.len() == 0,
            r@.cases.len() == 0,
            r@.consents.len() == 0,
            r@.ai_results.len() == 0,
            r@.payments.len() == 0,
            r@.user_details.len() == 0,
            r@.access_requests.len() == 0,
    {
        CipherState {
            messages: Table::new(),
            documents: Table::new(),
            cases: Table::new(),
            consents: Table::new(),
            ai_results: Table::new(),
            payments: Table::new(),
            user_details: Table::new(),
            access_requests: Table::new(),
        }
    }

    // ------------------------------------------------------------ cases

    /// Opens a case whose admin and first lawyer is `params.admin_id`; its id is the
    /// case name, `_`, and the decimal `timestamp`, followed by as many `+` as it takes to
    /// make it an id no case has yet.
    pub fn open_case(&mut self, params: CaseCreateParams, timestamp: u64) -> (r: Result<
        CipherEvent,
        CipherError,
    >)
        requires
            old(self).wf(),
        ensures
            final(self).wf(),
            committed(r, old(self)@, final(self)@, open_case_outcome(old(self)@, params, timestamp)),
            match r {
                Ok(CipherEvent::CaseOpened { case_id }) => case_id@ == fresh_case_key(
                    old(self)@.cases,
                    params.case_name@,
                    timestamp,
                ),
                Ok(_) => false,
                Err(_) => true,
            },
    {
        if params.case_name.as_str().is_empty() || params.description.as_str().is_empty()
            || params.admin_id.as_str().is_empty() {
            return Err(CipherError::Validation);
        }
        let mut case_id = params.case_name.clone();
        proof {
            reveal_strlit("_");
        }
        case_id.append("_");
        append_decimal(&mut case_id, timestamp);
        assert(case_id@ == case_key(params.case_name@, timestamp));
        let ghost base = case_id@;
        let ghost mut k: nat = 0;
        assert(case_id@ =~= base + pluses(0));
        while self.cases.contains_key(&case_id)
            invariant
                self.wf(),
                case_id@ == base + pluses(k),
                k <= longest_key(self.cases@) + 1,
                first_free(self.cases@, base, 0) == first_free(self.cases@, base, k),
            decreases longest_key(self.cases@) + 1 - k,
        {
            proof {
                if k > longest_key(self.cases@) {
                    lemma_long_key_free(self.cases@, base + pluses(k));
                }
            }
            proof {
                reveal_strlit("+");
            }
            case_id.append("+");
            proof {
                assert(case_id@ =~= base + pluses(k + 1));
                k = k + 1;
            }
        }
        assert(case_id@ == fresh_case_key(self.cases@, params.case_name@, timestamp));
        let ghost expected = opened_case(params, case_id@);
        let lawyer_ids = vec![params.admin_id.clone()];
        assert(ids_view(lawyer_ids) =~= seq![params.admin_id@]);
        proof {
            reveal_strlit("active");
        }
        let status = String::from_str("active");
        assert(status@ =~= active_status());
        let client_id = match params.client_id {
            Some(c) => c,
            None => String::new(),
        };
        let related_documents = match params.initial_docs {
            Some(d) => d,
            None => Vec::new(),
        };
        assert(ids_view(related_documents) =~= expected.related_documents);
        let legal_case = LegalCase {
            case_id: case_id.clone(),
            case_name: params.case_name,
            client_id,
            lawyer_ids,
            admin_id: params.admin_id,
            status,
            related_documents,
            privacy_level: params.privacy_level,
        };
        assert(legal_case@ == expected);
        assert(expected.lawyer_ids[0] == expected.admin_id);
        proof {
            lemma_put_case(self.cases@, case_id@, expected);
        }
        self.cases.insert(case_id.clone(), legal_case);
        Ok(CipherEvent::CaseOpened { case_id })
    }

    /// Every case in which `user_id` is the admin, a lawyer, or the client, in table order.
    pub fn list_cases_for_user(&self, user_id: String) -> (r: Result<Vec<LegalCase>, CipherError>)
        requires
            self.wf(),
        ensures
            r is Ok,
            answered(r, Ok(values_of(self@.cases).filter(involves(user_id@)))),
    {
        let mut out: Vec<LegalCase> = Vec::new();
        let mut i: usize = 0;
        while i < self.cases.len()
            invariant
                i <= self.cases@.len(),
                out.deep_view() == values_of(self.cases@).take(i as int).filter(involves(user_id@)),
            decreases self.cases@.len() - i,
        {
            let c = self.cases.value_at(i);
            let ghost x = values_of(self.cases@)[i as int];
            assert(values_of(self.cases@).take(i + 1) =~= values_of(self.cases@).take(i as int).push(x));
            proof {
                values_of(self.cases@).take(i as int).lemma_filter_push(x, involves(user_id@));
            }
            let ghost before = out.deep_view();
            if c.has_member(&user_id) {
                out.push(c.clone());
                assert(out.deep_view() =~= before.push(x));
            }
            i = i + 1;
        }
        assert(values_of(self.cases@).take(i as int) =~= values_of(self.cases@));
        Ok(out)
    }

    /// Adds `new_member_id` to a case as `"lawyer"` (no duplicate) or as `"client"` (only into
    /// an empty client slot), on behalf of a member of the case.
    pub fn add_case_member(
        &mut self,
        caller_id: String,
        case_id: String,
        new_member_id: String,
        role: String,
    ) -> (r: Result<CipherEvent, CipherError>)
        requires
            old(self).wf(),
        ensures
            final(self).wf(),
            committed(
                r,
                old(self)@,
                final(self)@,
                add_member_outcome(old(self)@, caller_id@, case_id@, new_member_id@, role@),
            ),
            match r {
                Ok(CipherEvent::MemberAdded { case_id: c, member_id: m, role: ro }) => c@
                    == case_id@ && m@ == new_member_id@ && ro@ == role@,
                Ok(_) => false,
                Err(_) => true,
            },
    {
        let case = match self.cases.get(&case_id) {
            Some(c) => c,
            None => return Err(CipherError::NotFound),
        };
        if !case.has_member(&caller_id) {
            return Err(CipherError::Authorization);
        }
        proof {
            lemma_case_admin(self.cases@, case_id@);
        }
        let mut updated = case.clone();
        proof {
            reveal_strlit("lawyer");
            reveal_strlit("client");
        }
        assert("lawyer"@ =~= lawyer_role());
        assert("client"@ =~= client_role());
        if str_equals(role.as_str(), "lawyer") {
            push_unique(&mut updated.lawyer_ids, new_member_id.clone());
            proof {
                crate::ids::lemma_add_id_contains(case@.lawyer_ids, new_member_id@);
            }
            assert(updated@ == crate::types::CaseView {
                lawyer_ids: add_id(case@.lawyer_ids, new_member_id@),
                ..case@
            });
        } else if str_equals(role.as_str(), "client") {
            if !updated.client_id.as_str().is_empty() {
                return Err(CipherError::Conflict);
            }
            updated.client_id = new_member_id.clone();
            assert(updated@ == crate::types::CaseView { client_id: new_member_id@, ..case@ });
        } else {
            return Err(CipherError::Validation);
        }
        proof {
            lemma_put_case(self.cases@, case_id@, updated@);
        }
        self.cases.insert(case_id.clone(), updated);
        Ok(CipherEvent::MemberAdded { case_id, member_id: new_member_id, role })
    }

    /// The members of a case, for a member: lawyers in order with the admin flagged,
    /// then the client if there is one.
    pub fn list_case_members(&self, case_id: String, caller_id: String) -> (r: Result<
        Vec<CaseMember>,
        CipherError,
    >)
        requires
            self.wf(),
        ensures
            answered(r, members_result(self@, case_id@, caller_id@)),
    {
        let case = match self.cases.get(&case_id) {
            Some(c) => c,
            None => return Err(CipherError::NotFound),
        };
        if !case.has_member(&caller_id) {
            return Err(CipherError::Authorization);
        }
        let ghost lawyers = case@.lawyer_ids;
        let ghost f = |l: Seq<char>|
            crate::types::MemberView { member_id: l, role: MemberRole::Lawyer, is_admin: l == case@.admin_id };
        let mut members: Vec<CaseMember> = Vec::new();
        let mut i: usize = 0;
        while i < case.lawyer_ids.len()
            invariant
                i <= case.lawyer_ids.len(),
                lawyers == case@.lawyer_ids,
                f == (|l: Seq<char>|
                    crate::types::MemberView { member_id: l, role: MemberRole::Lawyer, is_admin: l == case@.admin_id }),
                members.deep_view() == lawyers.take(i as int).map_values(f),
            decreases case.lawyer_ids.len() - i,
        {
            let id = case.lawyer_ids[i].clone();
            let is_admin = case.admin_id == id;
            let ghost before = members.deep_view();
            members.push(CaseMember { member_id: id, role: MemberRole::Lawyer, is_admin });
            assert(members.deep_view() =~= before.push(f(lawyers[i as int])));
            assert(lawyers.take(i + 1).map_values(f) =~= lawyers.take(i as int).map_values(f).push(
                f(lawyers[i as int]),
            ));
            i = i + 1;
        }
        assert(lawyers.take(i as int) =~= lawyers);
        let ghost before = members.deep_view();
        if !case.client_id.as_str().is_empty() {
            members.push(
                CaseMember { member_id: case.client_id.clone(), role: MemberRole::Client, is_admin: false },
            );
        }
        assert(members.deep_view() =~= members_of(case@));
        Ok(members)
    }

    // ------------------------------------------------------------ messages

    /// Appends a message from the client or a lawyer to the case's log, addressed to
    /// everyone in the case at this moment.
    pub fn send_message(
        &mut self,
        sender_id: String,
        case_id: String,
        ciphertext: Vec<u8>,
        iv: Vec<u8>,
        mode: MessageMode,
        timestamp: u64,
    ) -> (r: Result<CipherEvent, CipherError>)
        requires
            old(self).wf(),
        ensures
            final(self).wf(),
            committed(
                r,
                old(self)@,
                final(self)@,
                send_outcome(old(self)@, sender_id@, case_id@, ciphertext@, iv@, mode, timestamp),
            ),
            match r {
                Ok(CipherEvent::MessageSent { case_id: c, sender: s, message: m }) => c@ == case_id@
                    && s@ == sender_id@ && m@ == new_message(
                    lookup(old(self)@.cases, case_id@).unwrap(),
                    sender_id@,
                    ciphertext@,
                    iv@,
                    mode,
                    timestamp,
                ),
                Ok(_) => false,
                Err(_) => true,
            },
    {
        let case = match self.cases.get(&case_id) {
            Some(c) => c,
            None => return Err(CipherError::NotFound),
        };
        if !(case.is_client(&sender_id) || contains_id(&case.lawyer_ids, &sender_id)) {
            return Err(CipherError::Authorization);
        }
        let message = EncryptedMessage {
            ciphertext,
            iv,
            sender_id: sender_id.clone(),
            recipient_ids: case.get_participants(),
            timestamp,
            mode,
            read_receipts: Vec::new(),
        };
        assert(ids_view(message.read_receipts) =~= Seq::<Seq<char>>::empty());
        let mut log = match self.messages.get(&case_id) {
            Some(l) => clone_messages(l),
            None => Vec::new(),
        };
        assert(log.deep_view() =~= self@.log_of(case_id@));
        let sent = message.clone();
        let ghost before = log.deep_view();
        log.push(message);
        assert(log.deep_view() =~= before.push(sent@));
        self.messages.insert(case_id.clone(), log);
        Ok(CipherEvent::MessageSent { case_id, sender: sender_id, message: sent })
    }

    /// Records that `reader_id` read message `message_index` of a case. A vanishing message
    /// then leaves that reader's view, and the log once no recipient is left.
    pub fn mark_message_read(&mut self, case_id: String, message_index: usize, reader_id: String) -> (r:
        Result<(), CipherError>)
        requires
            old(self).wf(),
        ensures
            final(self).wf(),
            committed(
                r,
                old(self)@,
                final(self)@,
                mark_read_outcome(old(self)@, case_id@, message_index as int, reader_id@),
            ),
    {
        let mut log = match self.messages.get(&case_id) {
            Some(l) => clone_messages(l),
            None => Vec::new(),
        };
        let ghost old_log = self@.log_of(case_id@);
        assert(log.deep_view() =~= old_log);
        if message_index >= log.len() {
            return Err(CipherError::NotFound);
        }
        if !contains_id(&log[message_index].recipient_ids, &reader_id) {
            return Err(CipherError::Authorization);
        }
        let mut updated = log[message_index].clone();
        push_unique(&mut updated.read_receipts, reader_id.clone());
        match updated.mode {
            MessageMode::Vanish => {
                updated.recipient_ids = without_id(&updated.recipient_ids, &reader_id);
                if updated.recipient_ids.len() == 0 {
                    log.remove(message_index);
                    assert(log.deep_view() =~= old_log.remove(message_index as int));
                } else {
                    let ghost u = updated@;
                    log.set(message_index, updated);
                    assert(log.deep_view() =~= old_log.update(message_index as int, u));
                }
            },
            MessageMode::Persistent => {
                let ghost u = updated@;
                log.set(message_index, updated);
                assert(log.deep_view() =~= old_log.update(message_index as int, u));
            },
        }
        assert(log.deep_view() == log_after_read(old_log, message_index as int, reader_id@));
        self.messages.insert(case_id, log);
        Ok(())
    }

    /// The whole log of a case, for any member of it.
    pub fn get_case_messages(&self, case_id: String, requester_id: String) -> (r: Result<
        Vec<EncryptedMessage>,
        CipherError,
    >)
        requires
            self.wf(),
        ensures
            answered(r, case_messages_result(self@, case_id@, requester_id@)),
    {
        let case = match self.cases.get(&case_id) {
            Some(c) => c,
            None => return Err(CipherError::NotFound),
        };
        if !case.has_member(&requester_id) {
            return Err(CipherError::Authorization);
        }
        let log = match self.messages.get(&case_id) {
            Some(l) => clone_messages(l),
            None => Vec::new(),
        };
        assert(log.deep_view() =~= self@.log_of(case_id@));
        Ok(log)
    }

    /// The messages of a case still addressed to the requester, for any member of it.
    pub fn get_visible_messages(&self, case_id: String, requester_id: String) -> (r: Result<
        Vec<EncryptedMessage>,
        CipherError,
    >)
        requires
            self.wf(),
        ensures
            answered(r, visible_messages_result(self@, case_id@, requester_id@)),
    {
        let case = match self.cases.get(&case_id) {
            Some(c) => c,
            None => return Err(CipherError::NotFound),
        };
        if !case.has_member(&requester_id) {
            return Err(CipherError::Authorization);
        }
        let mut out: Vec<EncryptedMessage> = Vec::new();
        match self.messages.get(&case_id) {
            Some(log) => {
                let ghost s = log.deep_view();
                let mut i: usize = 0;
                while i < log.len()
                    invariant
                        i <= log.len(),
                        s == log.deep_view(),
                        out.deep_view() == s.take(i as int).filter(addressed_to(requester_id@)),
                    decreases log.len() - i,
                {
                    let ghost x = s[i as int];
                    assert(s.take(i + 1) =~= s.take(i as int).push(x));
                    proof {
                        s.take(i as int).lemma_filter_push(x, addressed_to(requester_id@));
                    }
                    let ghost before = out.deep_view();
                    if contains_id(&log[i].recipient_ids, &requester_id) {
                        out.push(log[i].clone());
                        assert(out.deep_view() =~= before.push(x));
                    }
                    i = i + 1;
                }
                assert(s.take(i as int) =~= s);
            },
            None => {
                assert(out.deep_view() =~= Seq::<crate::types::MessageView>::empty().filter(
                    addressed_to(requester_id@),
                )) by {
                    Seq::<crate::types::MessageView>::empty().lemma_filter_len(addressed_to(requester_id@));
                }
            },
        }
        Ok(out)
    }

    // ------------------------------------------------------------ documents

    /// Stores a free-standing document readable by its owner alone. Its owner may store it
    /// again, which replaces it; a hash that another user owns is a conflict.
    pub fn store_document(
        &mut self,
        encrypted_content: Vec<u8>,
        doc_hash: String,
        document_type: String,
        owner_id: String,
        timestamp: u64,
    ) -> (r: Result<CipherEvent, CipherError>)
        requires
            old(self).wf(),
        ensures
            final(self).wf(),
            committed(
                r,
                old(self)@,
                final(self)@,
                store_outcome(
                    old(self)@,
                    encrypted_content@,
                    doc_hash@,
                    document_type@,
                    owner_id@,
                    timestamp,
                ),
            ),
            match r {
                Ok(CipherEvent::DocumentUploaded { doc_hash: h, doc_type: t }) => h@ == doc_hash@
                    && t@ == document_type@,
                Ok(_) => false,
                Err(_) => true,
            },
    {
        proof {
            crate::laws::law_store_lists_owner(
                self@,
                encrypted_content@,
                doc_hash@,
                document_type@,
                owner_id@,
                timestamp,
            );
        }
        match self.documents.get(&doc_hash) {
            Some(d) => {
                if !(d.owner_id == owner_id) {
                    return Err(CipherError::Conflict);
                }
            },
            None => {},
        }
        let access_list = vec![owner_id.clone()];
        assert(ids_view(access_list) =~= seq![owner_id@]);
        let document = LegalDocument {
            encrypted_content,
            document_hash: doc_hash.clone(),
            document_type: document_type.clone(),
            owner_id,
            case_id: None,
            access_list,
            ai_analysis_id: None,
            timestamp,
        };
        self.documents.insert(doc_hash.clone(), document);
        Ok(CipherEvent::DocumentUploaded { doc_hash, doc_type: document_type })
    }

    /// Stores a document for a case on behalf of one of its members, readable by the
    /// uploader, and lists its hash among the case's documents.
    pub fn upload_document_case(
        &mut self,
        encrypted_content: Vec<u8>,
        doc_hash: String,
        document_type: String,
        case_id: String,
        caller_id: String,
        timestamp: u64,
    ) -> (r: Result<CipherEvent, CipherError>)
        requires
            old(self).wf(),
        ensures
            final(self).wf(),
            committed(
                r,
                old(self)@,
                final(self)@,
                upload_outcome(
                    old(self)@,
                    encrypted_content@,
                    doc_hash@,
                    document_type@,
                    case_id@,
                    caller_id@,
                    timestamp,
                ),
            ),
            match r {
                Ok(CipherEvent::DocumentUploaded { doc_hash: h, doc_type: t }) => h@ == doc_hash@
                    && t@ == document_type@,
                Ok(_) => false,
                Err(_) => true,
            },
    {
        proof {
            crate::laws::law_upload_lists_owner(
                self@,
                encrypted_content@,
                doc_hash@,
                document_type@,
                case_id@,
                caller_id@,
                timestamp,
            );
        }
        let case = match self.cases.get(&case_id) {
            Some(c) => c,
            None => return Err(CipherError::NotFound),
        };
        if !case.has_member(&caller_id) {
            return Err(CipherError::Authorization);
        }
        match self.documents.get(&doc_hash) {
            Some(d) => {
                if !(d.owner_id == caller_id) {
                    return Err(CipherError::Conflict);
                }
                match &d.case_id {
                    Some(c) => {
                        if !(*c == case_id) {
                            return Err(CipherError::Conflict);
                        }
                    },
                    None => {},
                }
            },
            None => {},
        }
        proof {
            lemma_case_admin(self.cases@, case_id@);
        }
        let mut updated = case.clone();
        push_unique(&mut updated.related_documents, doc_hash.clone());
        assert(updated@ == crate::types::CaseView {
            related_documents: add_id(case@.related_documents, doc_hash@),
            ..case@
        });
        let access_list = vec![caller_id.clone()];
        assert(ids_view(access_list) =~= seq![caller_id@]);
        let document = LegalDocument {
            encrypted_content,
            document_hash: doc_hash.clone(),
            document_type: document_type.clone(),
            owner_id: caller_id,
            case_id: Some(case_id.clone()),
            access_list,
            ai_analysis_id: None,
            timestamp,
        };
        proof {
            lemma_put_case(self.cases@, case_id@, updated@);
        }
        self.documents.insert(doc_hash.clone(), document);
        self.cases.insert(case_id, updated);
        Ok(CipherEvent::DocumentUploaded { doc_hash, doc_type: document_type })
    }

    /// Lets the owner of a document admit `grantee_id` to it. Where `grantee_id` is the id of
    /// a case, everyone in that case at this moment is admitted instead.
    pub fn grant_access(&mut self, doc_hash: String, grantee_id: String, caller_id: String) -> (r:
        Result<(), CipherError>)
        requires
            old(self).wf(),
        ensures
            final(self).wf(),
            committed(
                r,
                old(self)@,
                final(self)@,
                grant_outcome(old(self)@, doc_hash@, grantee_id@, caller_id@),
            ),
    {
        proof {
            crate::laws::law_grant_keeps_owner(self@, doc_hash@, grantee_id@, caller_id@);
        }
        let doc = match self.documents.get(&doc_hash) {
            Some(d) => d,
            None => return Err(CipherError::NotFound),
        };
        if !(doc.owner_id == caller_id) {
            return Err(CipherError::Authorization);
        }
        let mut updated = doc.clone();
        let ghost start = doc@.access_list;
        match self.cases.get(&grantee_id) {
            Some(c) => {
                let ps = c.get_participants();
                let ghost xs = ps.deep_view();
                let mut i: usize = 0;
                while i < ps.len()
                    invariant
                        i <= ps.len(),
                        xs == ps.deep_view(),
                        updated@ == (crate::types::DocumentView {
                            access_list: crate::ids::add_ids(start, xs.take(i as int)),
                            ..doc@
                        }),
                    decreases ps.len() - i,
                {
                    assert(xs.take(i + 1).drop_last() =~= xs.take(i as int));
                    push_unique(&mut updated.access_list, ps[i].clone());
                    i = i + 1;
                }
                assert(xs.take(i as int) =~= xs);
            },
            None => {
                push_unique(&mut updated.access_list, grantee_id.clone());
            },
        }
        self.documents.insert(doc_hash, updated);
        Ok(())
    }

    /// Every document the caller owns or may read, in table order.
    pub fn get_accessible_documents(&self, caller_id: String) -> (r: Result<
        Vec<LegalDocument>,
        CipherError,
    >)
        requires
            self.wf(),
        ensures
            r is Ok,
            answered(r, Ok(values_of(self@.documents).filter(readable_by(caller_id@)))),
    {
        let mut out: Vec<LegalDocument> = Vec::new();
        let mut i: usize = 0;
        while i < self.documents.len()
            invariant
                i <= self.documents@.len(),
                out.deep_view() == values_of(self.documents@).take(i as int).filter(
                    readable_by(caller_id@),
                ),
            decreases self.documents@.len() - i,
        {
            let d = self.documents.value_at(i);
            let ghost x = values_of(self.documents@)[i as int];
            assert(values_of(self.documents@).take(i + 1) =~= values_of(self.documents@).take(
                i as int,
            ).push(x));
            proof {
                values_of(self.documents@).take(i as int).lemma_filter_push(
                    x,
                    readable_by(caller_id@),
                );
            }
            let ghost before = out.deep_view();
            if d.owner_id == caller_id || contains_id(&d.access_list, &caller_id) {
                out.push(d.clone());
                assert(out.deep_view() =~= before.push(x));
            }
            i = i + 1;
        }
        assert(values_of(self.documents@).take(i as int) =~= values_of(self.documents@));
        Ok(out)
    }

    /// The stored documents of a case, in the case's order, for any member of it.
    pub fn list_case_documents(&self, case_id: String, caller_id: String) -> (r: Result<
        Vec<LegalDocument>,
        CipherError,
    >)
        requires
            self.wf(),
        ensures
            answered(r, case_documents_result(self@, case_id@, caller_id@)),
    {
        let case = match self.cases.get(&case_id) {
            Some(c) => c,
            None => return Err(CipherError::NotFound),
        };
        if !case.has_member(&caller_id) {
            return Err(CipherError::Authorization);
        }
        let ghost hs = case@.related_documents;
        let mut docs: Vec<LegalDocument> = Vec::new();
        let mut i: usize = 0;
        while i < case.related_documents.len()
            invariant
                i <= case.related_documents.len(),
                hs == case@.related_documents,
                self.wf(),
                docs.deep_view() == docs_for(self@.documents, hs.take(i as int)),
            decreases case.related_documents.len() - i,
        {
            assert(hs.take(i + 1).drop_last() =~= hs.take(i as int));
            assert(hs.take(i + 1).last() == hs[i as int]);
            let ghost before = docs.deep_view();
            match self.documents.get(&case.related_documents[i]) {
                Some(d) => {
                    docs.push(d.clone());
                    assert(docs.deep_view() =~= before.push(d@));
                },
                None => {},
            }
            i = i + 1;
        }
        assert(hs.take(i as int) =~= hs);
        Ok(docs)
    }

    // ------------------------------------------------------------ consent

    /// `client_id` withdraws the consent given to `lawyer_id`: the consent record goes (if it
    /// was there) and the lawyer leaves the access list of every document the client owns.
    pub fn revoke_consent(&mut self, client_id: String, lawyer_id: String) -> (r: Result<
        CipherEvent,
        CipherError,
    >)
        requires
            old(self).wf(),
        ensures
            final(self).wf(),
            r is Ok,
            final(self)@ == revoke_outcome(old(self)@, client_id@, lawyer_id@),
            match r {
                Ok(CipherEvent::ConsentRevoked { client_id: c, lawyer_id: l }) => c@ == client_id@
                    && l@ == lawyer_id@,
                Ok(_) => false,
                Err(_) => true,
            },
    {
        let mut key = client_id.clone();
        proof {
            reveal_strlit(":");
        }
        key.append(":");
        key.append(lawyer_id.as_str());
        assert(key@ =~= consent_key(client_id@, lawyer_id@));
        self.consents.remove(&key);
        let ghost docs = old(self)@.documents;
        let mut i: usize = 0;
        while i < self.documents.len()
            invariant
                i <= self.documents@.len(),
                self.documents@.len() == docs.len(),
                self.documents.wf(),
                forall|j: int| 0 <= j < i ==> #[trigger] self.documents@[j] == revoked_entry(docs[j], client_id@, lawyer_id@),
                forall|j: int| i <= j < docs.len() ==> #[trigger] self.documents@[j] == docs[j],
                self.messages == old(self).messages,
                self.cases == old(self).cases,
                self.ai_results == old(self).ai_results,
                self.payments == old(self).payments,
                self.user_details == old(self).user_details,
                self.access_requests == old(self).access_requests,
                self.consents@ == crate::table::erase(old(self)@.consents, consent_key(client_id@, lawyer_id@)),
                self.consents.wf(),
            decreases self.documents@.len() - i,
        {
            let d = self.documents.value_at(i);
            if d.owner_id == client_id && !(lawyer_id == client_id) {
                let mut u = d.clone();
                u.access_list = without_id(&u.access_list, &lawyer_id);
                self.documents.set_value_at(i, u);
            }
            i = i + 1;
        }
        assert(self.documents@ =~= docs.map_values(
            |e: (Seq<char>, crate::types::DocumentView)| revoked_entry(e, client_id@, lawyer_id@),
        ));
        proof {
            crate::laws::law_revoke_keeps_owner(old(self)@, client_id@, lawyer_id@);
        }
        Ok(CipherEvent::ConsentRevoked { client_id, lawyer_id })
    }

    // ------------------------------------------------------------ user details

    /// A user updates their own details: the name, phone and email given replace the stored
    /// ones, and so does a non-empty access list; anything else stays.
    pub fn update_user_details(&mut self, details: user_details, caller_id: String) -> (r: Result<
        (),
        CipherError,
    >)
        requires
            old(self).wf(),
        ensures
            final(self).wf(),
            committed(r, old(self)@, final(self)@, update_details_outcome(old(self)@, details@, caller_id@)),
    {
        if !(caller_id == details.user_id) {
            return Err(CipherError::Authorization);
        }
        let mut current = match self.user_details.get(&caller_id) {
            Some(d) => d.clone(),
            None => {
                let access_list: Vec<String> = Vec::new();
                assert(ids_view(access_list) =~= Seq::<Seq<char>>::empty());
                user_details {
                    user_id: caller_id.clone(),
                    name: None,
                    phone: None,
                    email: None,
                    wallet_id: None,
                    access_list,
                }
            },
        };
        let ghost cur = current@;
        assert(cur == crate::model::details_of(self@, caller_id@));
        if details.name.is_some() {
            current.name = details.name;
        }
        if details.phone.is_some() {
            current.phone = details.phone;
        }
        if details.email.is_some() {
            current.email = details.email;
        }
        if details.access_list.len() > 0 {
            current.access_list = details.access_list;
        }
        assert(current@ == merged_details(cur, details@));
        self.user_details.insert(caller_id, current);
        Ok(())
    }

    /// `requester_id` asks to see the details of `target_user_id`; asking twice is asking once.
    pub fn request_user_details_access(&mut self, target_user_id: String, requester_id: String) -> (r:
        Result<(), CipherError>)
        requires
            old(self).wf(),
        ensures
            final(self).wf(),
            committed(
                r,
                old(self)@,
                final(self)@,
                request_details_outcome(old(self)@, target_user_id@, requester_id@),
            ),
    {
        if target_user_id == requester_id {
            return Err(CipherError::Validation);
        }
        let mut requests = match self.access_requests.get(&target_user_id) {
            Some(r) => clone_ids(r),
            None => Vec::new(),
        };
        assert(ids_view(requests) =~= requests_of(self@, target_user_id@));
        push_unique(&mut requests, requester_id);
        self.access_requests.insert(target_user_id, requests);
        Ok(())
    }

    /// Who asked to see the caller's details.
    pub fn get_user_access_requests(&self, caller_id: String) -> (r: Result<Vec<String>, CipherError>)
        requires
            self.wf(),
        ensures
            answered(r, Ok(requests_of(self@, caller_id@))),
    {
        let requests = match self.access_requests.get(&caller_id) {
            Some(r) => clone_ids(r),
            None => Vec::new(),
        };
        assert(ids_view(requests) =~= requests_of(self@, caller_id@));
        Ok(requests)
    }

    /// The caller lets `grantee_id` read the caller's stored details.
    pub fn grant_user_details_access(&mut self, grantee_id: String, caller_id: String) -> (r: Result<
        (),
        CipherError,
    >)
        requires
            old(self).wf(),
        ensures
            final(self).wf(),
            committed(
                r,
                old(self)@,
                final(self)@,
                grant_details_outcome(old(self)@, grantee_id@, caller_id@),
            ),
    {
        let mut details = match self.user_details.get(&caller_id) {
            Some(d) => d.clone(),
            None => return Err(CipherError::NotFound),
        };
        push_unique(&mut details.access_list, grantee_id);
        self.user_details.insert(caller_id, details);
        Ok(())
    }

    /// A user's details, for that user or anyone they admitted.
    pub fn get_user_details(&self, user_id: String, caller_id: String) -> (r: Result<
        user_details,
        CipherError,
    >)
        requires
            self.wf(),
        ensures
            answered(r, user_details_result(self@, user_id@, caller_id@)),
    {
        let details = match self.user_details.get(&user_id) {
            Some(d) => d,
            None => return Err(CipherError::NotFound),
        };
        if details.user_id == caller_id || contains_id(&details.access_list, &caller_id) {
            Ok(details.clone())
        } else {
            Err(CipherError::Authorization)
        }
    }

    /// The details of every other user who admitted the caller, in table order.
    pub fn get_accessible_user_details(&self, caller_id: String) -> (r: Result<
        Vec<user_details>,
        CipherError,
    >)
        requires
            self.wf(),
        ensures
            r is Ok,
            answered(r, Ok(values_of(self@.user_details).filter(shares_details_with(caller_id@)))),
    {
        let ghost s = values_of(self@.user_details);
        let mut out: Vec<user_details> = Vec::new();
        let mut i: usize = 0;
        while i < self.user_details.len()
            invariant
                i <= self.user_details@.len(),
                s == values_of(self@.user_details),
                out.deep_view() == s.take(i as int).filter(shares_details_with(caller_id@)),
            decreases self.user_details@.len() - i,
        {
            let d = self.user_details.value_at(i);
            let ghost x = s[i as int];
            assert(s.take(i + 1) =~= s.take(i as int).push(x));
            proof {
                s.take(i as int).lemma_filter_push(x, shares_details_with(caller_id@));
            }
            let ghost before = out.deep_view();
            if !(d.user_id == caller_id) && contains_id(&d.access_list, &caller_id) {
                out.push(d.clone());
                assert(out.deep_view() =~= before.push(x));
            }
            i = i + 1;
        }
        assert(s.take(i as int) =~= s);
        Ok(out)
    }

    // ------------------------------------------------------------ analyses

    /// Records the outcome of an analysis that was asked for earlier.
    pub fn update_ai_analysis(
        &mut self,
        analysis_id: String,
        summary: String,
        risks_detected: u8,
        recommendations: Vec<String>,
    ) -> (r: Result<CipherEvent, CipherError>)
        requires
            old(self).wf(),
        ensures
            final(self).wf(),
            committed(
                r,
                old(self)@,
                final(self)@,
                update_analysis_outcome(
                    old(self)@,
                    analysis_id@,
                    summary@,
                    risks_detected,
                    ids_view(recommendations),
                ),
            ),
            match r {
                Ok(CipherEvent::AnalysisCompleted { doc_hash, analysis_id: a }) => a@ == analysis_id@
                    && doc_hash@ == lookup(old(self)@.ai_results, analysis_id@).unwrap().document_hash,
                Ok(_) => false,
                Err(_) => true,
            },
    {
        let analysis = match self.ai_results.get(&analysis_id) {
            Some(a) => a,
            None => return Err(CipherError::NotFound),
        };
        let doc_hash = analysis.document_hash.clone();
        let updated = AIAnalysisResult {
            analysis_id: analysis.analysis_id.clone(),
            document_hash: analysis.document_hash.clone(),
            summary,
            risks_detected,
            recommendations,
            generated_by: analysis.generated_by.clone(),
            timestamp: analysis.timestamp,
        };
        self.ai_results.insert(analysis_id.clone(), updated);
        Ok(CipherEvent::AnalysisCompleted { doc_hash, analysis_id })
    }

    // ------------------------------------------------------------ storage

    /// Rebuilds an engine from stored entries. Two entries under one key in any table are a
    /// conflict; a case whose admin is not among its lawyers or that lists a lawyer twice,
    /// and a document whose owner is not on its access list, are invalid.
    pub fn from_parts(parts: StateParts) -> (r: Result<Self, CipherError>)
        ensures
            r is Ok <==> parts_view(parts).wf(),
            match r {
                Ok(st) => st@ == parts_view(parts) && st.wf(),
                Err(e) => e == if has_duplicate_keys(parts_view(parts)) {
                    CipherError::Conflict
                } else {
                    CipherError::Validation
                },
            },
    {
        let ghost pv = parts_view(parts);
        let messages = match Table::from_entries(parts.messages) {
            Some(t) => t,
            None => return Err(CipherError::Conflict),
        };
        let documents = match Table::from_entries(parts.documents) {
            Some(t) => t,
            None => return Err(CipherError::Conflict),
        };
        let cases = match Table::from_entries(parts.cases) {
            Some(t) => t,
            None => return Err(CipherError::Conflict),
        };
        let consents = match Table::from_entries(parts.consents) {
            Some(t) => t,
            None => return Err(CipherError::Conflict),
        };
        let ai_results = match Table::from_entries(parts.ai_results) {
            Some(t) => t,
            None => return Err(CipherError::Conflict),
        };
        let payments = match Table::from_entries(parts.payments) {
            Some(t) => t,
            None => return Err(CipherError::Conflict),
        };
        let user_details = match Table::from_entries(parts.user_details) {
            Some(t) => t,
            None => return Err(CipherError::Conflict),
        };
        let access_requests = match Table::from_entries(parts.access_requests) {
            Some(t) => t,
            None => return Err(CipherError::Conflict),
        };
        let mut i: usize = 0;
        while i < cases.len()
            invariant
                i <= cases@.len(),
                pv == parts_view(parts),
                cases@ == pv.cases,
                messages@ == pv.messages,
                documents@ == pv.documents,
                consents@ == pv.consents,
                ai_results@ == pv.ai_results,
                payments@ == pv.payments,
                user_details@ == pv.user_details,
                access_requests@ == pv.access_requests,
                !has_duplicate_keys(pv),
                forall|j: int| 0 <= j < i ==> (#[trigger] cases@[j]).1.lawyer_ids.contains(cases@[j].1.admin_id),
                forall|j: int| 0 <= j < i ==> (#[trigger] cases@[j]).1.lawyer_ids.no_duplicates(),
            decreases cases@.len() - i,
        {
            let c = cases.value_at(i);
            if !contains_id(&c.lawyer_ids, &c.admin_id) {
                assert(!pv.cases[i as int].1.lawyer_ids.contains(pv.cases[i as int].1.admin_id));
                assert(!admins_are_lawyers(pv.cases));
                return Err(CipherError::Validation);
            }
            if !ids_distinct(&c.lawyer_ids) {
                assert(!pv.cases[i as int].1.lawyer_ids.no_duplicates());
                assert(!lawyers_distinct(pv.cases));
                return Err(CipherError::Validation);
            }
            i = i + 1;
        }
        let mut j: usize = 0;
        while j < documents.len()
            invariant
                j <= documents@.len(),
                pv == parts_view(parts),
                cases@ == pv.cases,
                messages@ == pv.messages,
                documents@ == pv.documents,
                consents@ == pv.consents,
                ai_results@ == pv.ai_results,
                payments@ == pv.payments,
                user_details@ == pv.user_details,
                access_requests@ == pv.access_requests,
                !has_duplicate_keys(pv),
                admins_are_lawyers(pv.cases),
                lawyers_distinct(pv.cases),
                forall|k: int| 0 <= k < j ==> (#[trigger] documents@[k]).1.access_list.contains(documents@[k].1.owner_id),
            decreases documents@.len() - j,
        {
            let d = documents.value_at(j);
            if !contains_id(&d.access_list, &d.owner_id) {
                assert(!pv.documents[j as int].1.access_list.contains(pv.documents[j as int].1.owner_id));
                assert(!owners_listed(pv.documents));
                return Err(CipherError::Validation);
            }
            j = j + 1;
        }
        Ok(
            CipherState {
                messages,
                documents,
                cases,
                consents,
                ai_results,
                payments,
                user_details,
                access_requests,
            },
        )
    }

    /// Hands back every table's entries, in order.
    pub fn into_parts(self) -> (r: StateParts)
        ensures
            parts_view(r) == self@,
    {
        StateParts {
            messages: self.messages.into_entries(),
            documents: self.documents.into_entries(),
            cases: self.cases.into_entries(),
            consents: self.consents.into_entries(),
            ai_results: self.ai_results.into_entries(),
            payments: self.payments.into_entries(),
            user_details: self.user_details.into_entries(),
            access_requests: self.access_requests.into_entries(),
        }
    }
}

} // verus!
