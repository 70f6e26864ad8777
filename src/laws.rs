//! Properties that hold across operations and sequences of them, proved over the model.
use vstd::prelude::*;
use crate::ids::{
    add_id, drop_id, lemma_add_id_contains, lemma_add_ids_contains, lemma_add_ids_present,
    lemma_drop_id_contains, other_than,
};
use crate::model::{
    add_member_outcome, addressed_to, admins_are_lawyers, case_key, consent_key, grant_outcome,
    granted_list, lemma_case_admin, lemma_put_case, lemma_put_doc, lemma_doc_owner, mark_read_outcome, may_send, new_document,
    open_case_outcome, opened_case, fresh_case_key, lemma_first_free, owners_listed, revoke_outcome, send_outcome, store_outcome,
    upload_outcome, visible_messages_result, StateView,
};
use crate::table::{has_key, key_pos, lemma_erase, lemma_put, lemma_put_twice, lookup, put, unique_keys};
use crate::types::{CaseCreateParams, CipherError, DocumentView, MessageMode, MessageView};

verus! {

// ---------------------------------------------------------------- admins stay lawyers

/// A valid request always opens a case, under an id no case had before, whose admin is
/// its only lawyer; the state stays well formed, every admin among its case's lawyers.
pub proof fn law_open_case_admin_is_lawyer(v: StateView, p: CaseCreateParams, t: u64)
    requires
        v.wf(),
    ensures
        (p.case_name@.len() > 0 && p.description@.len() > 0 && p.admin_id@.len() > 0)
            <==> open_case_outcome(v, p, t) is Ok,
        !has_key(v.cases, fresh_case_key(v.cases, p.case_name@, t)),
        match open_case_outcome(v, p, t) {
            Ok(w) => {
                &&& w.wf()
                &&& admins_are_lawyers(w.cases)
                &&& w.cases == v.cases.push((fresh_case_key(v.cases, p.case_name@, t), opened_case(p, fresh_case_key(v.cases, p.case_name@, t))))
                &&& opened_case(p, fresh_case_key(v.cases, p.case_name@, t)).lawyer_ids == seq![p.admin_id@]
            },
            Err(_) => true,
        },
{
    let id = fresh_case_key(v.cases, p.case_name@, t);
    let c = opened_case(p, id);
    assert(c.lawyer_ids[0] == c.admin_id);
    lemma_put_case(v.cases, id, c);
    lemma_put(v.cases, id, c);
    lemma_first_free(v.cases, case_key(p.case_name@, t), 0);
}

/// Adding a member keeps the state well formed, every admin among its case's lawyers.
pub proof fn law_add_member_keeps_admin(
    v: StateView,
    caller: Seq<char>,
    case_id: Seq<char>,
    member: Seq<char>,
    role: Seq<char>,
)
    requires
        v.wf(),
    ensures
        match add_member_outcome(v, caller, case_id, member, role) {
            Ok(w) => w.wf(),
            Err(_) => true,
        },
{
    match lookup(v.cases, case_id) {
        Some(c) => {
            lemma_case_admin(v.cases, case_id);
            lemma_add_id_contains(c.lawyer_ids, member);
            let added = crate::types::CaseView { lawyer_ids: add_id(c.lawyer_ids, member), ..c };
            let with_client = crate::types::CaseView { client_id: member, ..c };
            lemma_put_case(v.cases, case_id, added);
            lemma_put(v.cases, case_id, added);
            lemma_put_case(v.cases, case_id, with_client);
            lemma_put(v.cases, case_id, with_client);
        },
        None => {},
    }
}

/// One request to add a member to a case.
pub struct MemberCall {
    pub caller: Seq<char>,
    pub case_id: Seq<char>,
    pub member: Seq<char>,
    pub role: Seq<char>,
}

/// The state after each call in turn; a refused call changes nothing.
pub open spec fn after_member_calls(v: StateView, calls: Seq<MemberCall>) -> StateView
    decreases calls.len(),
{
    if calls.len() == 0 {
        v
    } else {
        let u = after_member_calls(v, calls.drop_last());
        let c = calls.last();
        match add_member_outcome(u, c.caller, c.case_id, c.member, c.role) {
            Ok(w) => w,
            Err(_) => u,
        }
    }
}

/// After any sequence of member additions every case still counts its admin among its lawyers.
pub proof fn law_member_calls_keep_admins(v: StateView, calls: Seq<MemberCall>)
    requires
        v.wf(),
    ensures
        after_member_calls(v, calls).wf(),
        admins_are_lawyers(after_member_calls(v, calls).cases),
    decreases calls.len(),
{
    if calls.len() > 0 {
        law_member_calls_keep_admins(v, calls.drop_last());
        let u = after_member_calls(v, calls.drop_last());
        let c = calls.last();
        law_add_member_keeps_admin(u, c.caller, c.case_id, c.member, c.role);
    }
}

// ---------------------------------------------------------------- owners stay readers

pub proof fn lemma_new_document_lists_owner(
    owner: Seq<char>,
    content: Seq<u8>,
    hash: Seq<char>,
    doc_type: Seq<char>,
    case_id: Option<Seq<char>>,
    t: u64,
)
    ensures
        new_document(owner, content, hash, doc_type, case_id, t).access_list.contains(owner),
{
    assert(new_document(owner, content, hash, doc_type, case_id, t).access_list[0] == owner);
}

/// A stored document starts out readable by its owner, and every other owner stays listed.
pub proof fn law_store_lists_owner(
    v: StateView,
    content: Seq<u8>,
    hash: Seq<char>,
    doc_type: Seq<char>,
    owner: Seq<char>,
    t: u64,
)
    requires
        v.wf(),
        owners_listed(v.documents),
    ensures
        match store_outcome(v, content, hash, doc_type, owner, t) {
            Ok(w) => owners_listed(w.documents),
            Err(_) => true,
        },
{
    lemma_new_document_lists_owner(owner, content, hash, doc_type, None, t);
    lemma_put_doc(v.documents, hash, new_document(owner, content, hash, doc_type, None, t));
}

/// A document uploaded into a case starts out readable by its owner, and every other owner
/// stays listed.
pub proof fn law_upload_lists_owner(
    v: StateView,
    content: Seq<u8>,
    hash: Seq<char>,
    doc_type: Seq<char>,
    case_id: Seq<char>,
    caller: Seq<char>,
    t: u64,
)
    requires
        v.wf(),
        owners_listed(v.documents),
    ensures
        match upload_outcome(v, content, hash, doc_type, case_id, caller, t) {
            Ok(w) => owners_listed(w.documents),
            Err(_) => true,
        },
{
    lemma_new_document_lists_owner(caller, content, hash, doc_type, Some(case_id), t);
    lemma_put_doc(
        v.documents,
        hash,
        new_document(caller, content, hash, doc_type, Some(case_id), t),
    );
}

/// Granting access never takes the owner off a document's access list.
pub proof fn law_grant_keeps_owner(v: StateView, hash: Seq<char>, grantee: Seq<char>, caller: Seq<char>)
    requires
        v.wf(),
        owners_listed(v.documents),
    ensures
        match grant_outcome(v, hash, grantee, caller) {
            Ok(w) => owners_listed(w.documents),
            Err(_) => true,
        },
{
    match lookup(v.documents, hash) {
        Some(d) => {
            let i = key_pos(v.documents, hash);
            assert(v.documents[i].1.access_list.contains(v.documents[i].1.owner_id));
            let l = granted_list(v, d.access_list, grantee);
            match lookup(v.cases, grantee) {
                Some(c) => lemma_add_ids_contains(d.access_list, c.participants()),
                None => lemma_add_id_contains(d.access_list, grantee),
            }
            assert(l.contains(d.owner_id));
            lemma_put_doc(v.documents, hash, DocumentView { access_list: l, ..d });
        },
        None => {},
    }
}

/// Revoking a lawyer's consent keeps every owner listed, even where the client names
/// themselves as the lawyer.
pub proof fn law_revoke_keeps_owner(v: StateView, client: Seq<char>, lawyer: Seq<char>)
    requires
        owners_listed(v.documents),
    ensures
        owners_listed(revoke_outcome(v, client, lawyer).documents),
{
    let w = revoke_outcome(v, client, lawyer);
    assert forall|i: int| 0 <= i < w.documents.len() implies (
    #[trigger] w.documents[i]).1.access_list.contains(w.documents[i].1.owner_id) by {
        let d = v.documents[i].1;
        assert(d.access_list.contains(d.owner_id));
        lemma_drop_id_contains(d.access_list, lawyer);
    }
}

/// A document uploaded into a case names that case, and the case lists the document.
pub proof fn law_upload_links_case(
    v: StateView,
    content: Seq<u8>,
    hash: Seq<char>,
    doc_type: Seq<char>,
    case_id: Seq<char>,
    caller: Seq<char>,
    t: u64,
)
    requires
        v.wf(),
    ensures
        match upload_outcome(v, content, hash, doc_type, case_id, caller, t) {
            Ok(w) => {
                &&& lookup(w.documents, hash) is Some
                &&& lookup(w.documents, hash).unwrap().case_id == Some(case_id)
                &&& lookup(w.documents, hash).unwrap().owner_id == caller
                &&& lookup(w.cases, case_id) is Some
                &&& lookup(w.cases, case_id).unwrap().related_documents.contains(hash)
            },
            Err(_) => true,
        },
{
    match lookup(v.cases, case_id) {
        Some(c) => {
            let d = new_document(caller, content, hash, doc_type, Some(case_id), t);
            let c2 = crate::types::CaseView { related_documents: add_id(c.related_documents, hash), ..c };
            lemma_put(v.documents, hash, d);
            lemma_put(v.cases, case_id, c2);
            lemma_add_id_contains(c.related_documents, hash);
        },
        None => {},
    }
}

// ---------------------------------------------------------------- granting twice

/// Granting the same grantee access twice leaves the state as granting once.
pub proof fn law_grant_idempotent(v: StateView, hash: Seq<char>, grantee: Seq<char>, caller: Seq<char>)
    requires
        v.wf(),
    ensures
        match grant_outcome(v, hash, grantee, caller) {
            Ok(w) => grant_outcome(w, hash, grantee, caller) == Ok::<StateView, CipherError>(w),
            Err(e) => true,
        },
{
    match lookup(v.documents, hash) {
        Some(d) => {
            if d.owner_id == caller {
                let l1 = granted_list(v, d.access_list, grantee);
                let d1 = DocumentView { access_list: l1, ..d };
                let w = StateView { documents: put(v.documents, hash, d1), ..v };
                lemma_put(v.documents, hash, d1);
                assert(lookup(w.documents, hash) == Some(d1));
                match lookup(v.cases, grantee) {
                    Some(c) => {
                        lemma_add_ids_contains(d.access_list, c.participants());
                        lemma_add_ids_present(l1, c.participants());
                    },
                    None => {
                        lemma_add_id_contains(d.access_list, grantee);
                    },
                }
                assert(granted_list(w, l1, grantee) == l1);
                lemma_put_twice(v.documents, hash, d1);
                assert(grant_outcome(w, hash, grantee, caller) == Ok::<StateView, CipherError>(w));
            }
        },
        None => {},
    }
}

// ---------------------------------------------------------------- persistent messages

/// The state after each reader in turn marks message `idx` of a case read; a refused
/// read changes nothing.
pub open spec fn read_in_turn(v: StateView, case_id: Seq<char>, idx: int, readers: Seq<Seq<char>>) -> StateView
    decreases readers.len(),
{
    if readers.len() == 0 {
        v
    } else {
        let u = read_in_turn(v, case_id, idx, readers.drop_last());
        match mark_read_outcome(u, case_id, idx, readers.last()) {
            Ok(w) => w,
            Err(_) => u,
        }
    }
}

/// Reading a persistent message changes only its receipts, which gain each reader.
pub proof fn lemma_read_persistent(v: StateView, case_id: Seq<char>, idx: int, readers: Seq<Seq<char>>)
    requires
        unique_keys(v.messages),
        0 <= idx < v.log_of(case_id).len(),
        v.log_of(case_id)[idx].mode == MessageMode::Persistent,
        forall|y: Seq<char>| #[trigger] readers.contains(y) ==> v.log_of(case_id)[idx].recipient_ids.contains(y),
    ensures
        unique_keys(read_in_turn(v, case_id, idx, readers).messages),
        read_in_turn(v, case_id, idx, readers).log_of(case_id).len() == v.log_of(case_id).len(),
        read_in_turn(v, case_id, idx, readers).log_of(case_id)[idx] == (MessageView {
            read_receipts: read_in_turn(v, case_id, idx, readers).log_of(case_id)[idx].read_receipts,
            ..v.log_of(case_id)[idx]
        }),
        forall|y: Seq<char>| #[trigger]
            read_in_turn(v, case_id, idx, readers).log_of(case_id)[idx].read_receipts.contains(y)
                <==> (v.log_of(case_id)[idx].read_receipts.contains(y) || readers.contains(y)),
    decreases readers.len(),
{
    let m = v.log_of(case_id)[idx];
    if readers.len() > 0 {
        let prefix = readers.drop_last();
        let last = readers.last();
        assert forall|y: Seq<char>| #[trigger] prefix.contains(y) implies m.recipient_ids.contains(y) by {
            let k = choose|k: int| 0 <= k < prefix.len() && prefix[k] == y;
            assert(readers[k] == y);
            assert(readers.contains(y));
        }
        lemma_read_persistent(v, case_id, idx, prefix);
        let u = read_in_turn(v, case_id, idx, prefix);
        let log = u.log_of(case_id);
        assert(readers[readers.len() - 1] == last);
        assert(readers.contains(last));
        assert(log[idx].recipient_ids.contains(last));
        let read = MessageView { read_receipts: add_id(log[idx].read_receipts, last), ..log[idx] };
        let nlog = log.update(idx, read);
        lemma_put(u.messages, case_id, nlog);
        let w = read_in_turn(v, case_id, idx, readers);
        assert(w.log_of(case_id) == nlog);
        lemma_add_id_contains(log[idx].read_receipts, last);
        assert forall|y: Seq<char>| #[trigger] readers.contains(y) <==> (prefix.contains(y) || y == last) by {
            if readers.contains(y) && y != last {
                let k = choose|k: int| 0 <= k < readers.len() && readers[k] == y;
                assert(prefix[k] == y);
            }
            if prefix.contains(y) {
                let k = choose|k: int| 0 <= k < prefix.len() && prefix[k] == y;
                assert(readers[k] == y);
            }
        }
    }
}

/// A persistent message, once each of its recipients has read it in turn, is still in the
/// case's log, still addressed to them all, with receipts naming exactly its recipients.
pub proof fn law_persistent_read_by_all(
    v: StateView,
    sender: Seq<char>,
    case_id: Seq<char>,
    ciphertext: Seq<u8>,
    iv: Seq<u8>,
    t: u64,
)
    requires
        v.wf(),
        send_outcome(v, sender, case_id, ciphertext, iv, MessageMode::Persistent, t) is Ok,
    ensures
        ({
            let u = send_outcome(v, sender, case_id, ciphertext, iv, MessageMode::Persistent, t).unwrap();
            let idx = v.log_of(case_id).len() as int;
            let m = u.log_of(case_id)[idx];
            let w = read_in_turn(u, case_id, idx, m.recipient_ids);
            &&& w.log_of(case_id).len() == idx + 1
            &&& w.log_of(case_id)[idx].recipient_ids == m.recipient_ids
            &&& forall|y: Seq<char>| #[trigger] w.log_of(case_id)[idx].read_receipts.contains(y)
                <==> m.recipient_ids.contains(y)
        }),
{
    let u = send_outcome(v, sender, case_id, ciphertext, iv, MessageMode::Persistent, t).unwrap();
    let idx = v.log_of(case_id).len() as int;
    let c = lookup(v.cases, case_id).unwrap();
    let m = crate::model::new_message(c, sender, ciphertext, iv, MessageMode::Persistent, t);
    lemma_put(v.messages, case_id, v.log_of(case_id).push(m));
    assert(u.log_of(case_id) == v.log_of(case_id).push(m));
    assert(u.log_of(case_id)[idx] == m);
    lemma_read_persistent(u, case_id, idx, m.recipient_ids);
}

// ---------------------------------------------------------------- vanishing messages

/// Reading a vanishing message takes the reader off its recipients and records the receipt;
/// once the last recipient has read it, it leaves the log and the log is one shorter.
pub proof fn law_vanish_read(v: StateView, case_id: Seq<char>, idx: int, reader: Seq<char>)
    requires
        v.wf(),
        mark_read_outcome(v, case_id, idx, reader) is Ok,
        v.log_of(case_id)[idx].mode == MessageMode::Vanish,
    ensures
        ({
            let log = v.log_of(case_id);
            let w = mark_read_outcome(v, case_id, idx, reader).unwrap();
            if drop_id(log[idx].recipient_ids, reader).len() == 0 {
                &&& w.log_of(case_id).len() == log.len() - 1
                &&& w.log_of(case_id) == log.remove(idx)
            } else {
                &&& w.log_of(case_id).len() == log.len()
                &&& !w.log_of(case_id)[idx].recipient_ids.contains(reader)
                &&& w.log_of(case_id)[idx].read_receipts.contains(reader)
            }
        }),
{
    let log = v.log_of(case_id);
    lemma_put(v.messages, case_id, crate::model::log_after_read(log, idx, reader));
    lemma_drop_id_contains(log[idx].recipient_ids, reader);
    lemma_add_id_contains(log[idx].read_receipts, reader);
}

// ---------------------------------------------------------------- who may send

/// Into an existing case, a send is refused for lack of authority exactly when the sender is
/// neither its client nor one of its lawyers, and succeeds otherwise.
pub proof fn law_send_authorization(
    v: StateView,
    sender: Seq<char>,
    case_id: Seq<char>,
    ciphertext: Seq<u8>,
    iv: Seq<u8>,
    mode: MessageMode,
    t: u64,
)
    requires
        lookup(v.cases, case_id) is Some,
    ensures
        (send_outcome(v, sender, case_id, ciphertext, iv, mode, t) == Err::<StateView, CipherError>(
            CipherError::Authorization,
        )) <==> !may_send(lookup(v.cases, case_id).unwrap(), sender),
        send_outcome(v, sender, case_id, ciphertext, iv, mode, t) is Ok <==> may_send(
            lookup(v.cases, case_id).unwrap(),
            sender,
        ),
{
}

// ---------------------------------------------------------------- revocation

/// Without `x` in `s`, dropping `x` changes nothing.
pub proof fn lemma_drop_absent(s: Seq<Seq<char>>, x: Seq<char>)
    requires
        !s.contains(x),
    ensures
        drop_id(s, x) == s,
    decreases s.len(),
{
    reveal(Seq::filter);
    if s.len() > 0 {
        assert(!s.drop_last().contains(x)) by {
            if s.drop_last().contains(x) {
                let k = choose|k: int| 0 <= k < s.drop_last().len() && s.drop_last()[k] == x;
                assert(s[k] == x);
            }
        }
        lemma_drop_absent(s.drop_last(), x);
        assert(s[s.len() - 1] != x);
        assert(other_than(x)(s.last()));
        assert(s.drop_last().push(s.last()) =~= s);
    }
}

/// After a client revokes another user's consent, the consent record is gone, the lawyer can no
/// longer read any document the client owns, and every document whose access list did not
/// name the lawyer, or that the client does not own, is exactly as before.
pub proof fn law_revoke_cascade(v: StateView, client: Seq<char>, lawyer: Seq<char>)
    requires
        v.wf(),
        client != lawyer,
    ensures
        ({
            let w = revoke_outcome(v, client, lawyer);
            &&& lookup(w.consents, consent_key(client, lawyer)) is None
            &&& w.documents.len() == v.documents.len()
            &&& forall|i: int| 0 <= i < v.documents.len() ==> {
                &&& (#[trigger] w.documents[i]).0 == v.documents[i].0
                &&& (v.documents[i].1.owner_id == client ==> !w.documents[i].1.access_list.contains(lawyer))
                &&& ((v.documents[i].1.owner_id != client || !v.documents[i].1.access_list.contains(lawyer))
                    ==> w.documents[i] == v.documents[i])
            }
        }),
{
    let w = revoke_outcome(v, client, lawyer);
    lemma_erase(v.consents, consent_key(client, lawyer));
    assert forall|i: int| 0 <= i < v.documents.len() implies {
        &&& (#[trigger] w.documents[i]).0 == v.documents[i].0
        &&& (v.documents[i].1.owner_id == client ==> !w.documents[i].1.access_list.contains(lawyer))
        &&& ((v.documents[i].1.owner_id != client || !v.documents[i].1.access_list.contains(lawyer))
            ==> w.documents[i] == v.documents[i])
    } by {
        let d = v.documents[i].1;
        lemma_drop_id_contains(d.access_list, lawyer);
        if !d.access_list.contains(lawyer) {
            lemma_drop_absent(d.access_list, lawyer);
        }
    }
}

// ---------------------------------------------------------------- visibility

/// Every message shown to a reader is still addressed to that reader.
pub proof fn law_visible_only_addressed(v: StateView, case_id: Seq<char>, reader: Seq<char>)
    ensures
        match visible_messages_result(v, case_id, reader) {
            Ok(ms) => forall|i: int| 0 <= i < ms.len() ==> (#[trigger] ms[i]).recipient_ids.contains(reader),
            Err(_) => true,
        },
{
    broadcast use vstd::seq_lib::group_filter_ensures;

    match visible_messages_result(v, case_id, reader) {
        Ok(ms) => {
            assert forall|i: int| 0 <= i < ms.len() implies (#[trigger] ms[i]).recipient_ids.contains(reader) by {
                v.log_of(case_id).lemma_filter_pred(addressed_to(reader), i);
            }
        },
        Err(_) => {},
    }
}

} // verus!
