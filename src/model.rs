//! The engine's state as mathematics, and what each operation makes of it.
use vstd::prelude::*;
use crate::ids::{add_id, add_ids, decimal, drop_id};
use crate::table::{has_key, key_pos, lookup, put, erase, unique_keys};
use crate::types::{
    ids_view, AnalysisView, CaseCreateParams, CaseView, CipherError, ConsentView, DocumentView, MemberRole,
    MemberView, MessageMode, MessageView, PaymentView, UserDetailsView,
};

verus! {

/// The whole state: every table as its entries in order.
pub struct StateView {
    /// Message log of each case, by case id.
    pub messages: Seq<(Seq<char>, Seq<MessageView>)>,
    /// Documents by content hash.
    pub documents: Seq<(Seq<char>, DocumentView)>,
    /// Cases by case id.
    pub cases: Seq<(Seq<char>, CaseView)>,
    /// Consents by `client:lawyer`.
    pub consents: Seq<(Seq<char>, ConsentView)>,
    /// Analyses by analysis id.
    pub ai_results: Seq<(Seq<char>, AnalysisView)>,
    /// Payments by payment id.
    pub payments: Seq<(Seq<char>, PaymentView)>,
    /// Contact details by user id.
    pub user_details: Seq<(Seq<char>, UserDetailsView)>,
    /// Who asked to see a user's details, by that user's id.
    pub access_requests: Seq<(Seq<char>, Seq<Seq<char>>)>,
}

/// Every case counts its admin among its lawyers.
pub open spec fn admins_are_lawyers(cases: Seq<(Seq<char>, CaseView)>) -> bool {
    forall|i: int| 0 <= i < cases.len() ==> (#[trigger] cases[i]).1.lawyer_ids.contains(cases[i].1.admin_id)
}

/// Every document lists its owner among its readers.
pub open spec fn owners_listed(docs: Seq<(Seq<char>, DocumentView)>) -> bool {
    forall|i: int| 0 <= i < docs.len() ==> (#[trigger] docs[i]).1.access_list.contains(docs[i].1.owner_id)
}

/// No case lists a lawyer twice.
pub open spec fn lawyers_distinct(cases: Seq<(Seq<char>, CaseView)>) -> bool {
    forall|i: int| 0 <= i < cases.len() ==> (#[trigger] cases[i]).1.lawyer_ids.no_duplicates()
}

/// Storing a case whose admin is one of its lawyers, listed once each, keeps every admin a
/// lawyer and every lawyer list without repeats.
pub proof fn lemma_put_case(cases: Seq<(Seq<char>, CaseView)>, k: Seq<char>, c: CaseView)
    requires
        admins_are_lawyers(cases),
        lawyers_distinct(cases),
        c.lawyer_ids.contains(c.admin_id),
        c.lawyer_ids.no_duplicates(),
    ensures
        admins_are_lawyers(put(cases, k, c)),
        lawyers_distinct(put(cases, k, c)),
{
    let t = put(cases, k, c);
    assert forall|i: int| 0 <= i < t.len() implies (#[trigger] t[i]).1.lawyer_ids.no_duplicates() by {
        if has_key(cases, k) && i != key_pos(cases, k) {
            assert(t[i] == cases[i]);
        } else if !has_key(cases, k) && i < cases.len() {
            assert(t[i] == cases[i]);
        }
    }
    assert forall|i: int| 0 <= i < t.len() implies (#[trigger] t[i]).1.lawyer_ids.contains(
        t[i].1.admin_id,
    ) by {
        if has_key(cases, k) && i != key_pos(cases, k) {
            assert(t[i] == cases[i]);
        } else if !has_key(cases, k) && i < cases.len() {
            assert(t[i] == cases[i]);
        }
    }
}

/// A stored case counts its admin among its lawyers, each listed once.
pub proof fn lemma_case_admin(cases: Seq<(Seq<char>, CaseView)>, k: Seq<char>)
    requires
        unique_keys(cases),
        admins_are_lawyers(cases),
        lawyers_distinct(cases),
        lookup(cases, k) is Some,
    ensures
        lookup(cases, k).unwrap().lawyer_ids.contains(lookup(cases, k).unwrap().admin_id),
        lookup(cases, k).unwrap().lawyer_ids.no_duplicates(),
{
    let i = key_pos(cases, k);
    assert(cases[i].1.lawyer_ids.contains(cases[i].1.admin_id));
    assert(cases[i].1.lawyer_ids.no_duplicates());
}

/// Storing a document that lists its owner keeps every owner listed.
pub proof fn lemma_put_doc(docs: Seq<(Seq<char>, DocumentView)>, k: Seq<char>, d: DocumentView)
    requires
        owners_listed(docs),
        d.access_list.contains(d.owner_id),
    ensures
        owners_listed(put(docs, k, d)),
{
    let t = put(docs, k, d);
    assert forall|i: int| 0 <= i < t.len() implies (#[trigger] t[i]).1.access_list.contains(
        t[i].1.owner_id,
    ) by {
        if i < docs.len() && t[i] != docs[i] {
            assert(t[i].1 == d);
        }
        if i >= docs.len() {
            assert(t[i].1 == d);
        }
    }
}

/// A stored document lists its owner.
pub proof fn lemma_doc_owner(docs: Seq<(Seq<char>, DocumentView)>, k: Seq<char>)
    requires
        unique_keys(docs),
        owners_listed(docs),
        lookup(docs, k) is Some,
    ensures
        lookup(docs, k).unwrap().access_list.contains(lookup(docs, k).unwrap().owner_id),
{
    let i = key_pos(docs, k);
    assert(docs[i].1.access_list.contains(docs[i].1.owner_id));
}

impl StateView {
    pub open spec fn wf(self) -> bool {
        &&& unique_keys(self.messages)
        &&& unique_keys(self.documents)
        &&& unique_keys(self.cases)
        &&& unique_keys(self.consents)
        &&& unique_keys(self.ai_results)
        &&& unique_keys(self.payments)
        &&& unique_keys(self.user_details)
        &&& unique_keys(self.access_requests)
        &&& admins_are_lawyers(self.cases)
        &&& lawyers_distinct(self.cases)
        &&& owners_listed(self.documents)
    }

    /// The message log of a case; empty where none was started.
    pub open spec fn log_of(self, case_id: Seq<char>) -> Seq<MessageView> {
        match lookup(self.messages, case_id) {
            Some(l) => l,
            None => Seq::empty(),
        }
    }
}

/// The outcome `r` of an operation matches `outcome`, and a refusal left the state as it was.
pub open spec fn committed<T>(
    r: Result<T, CipherError>,
    pre: StateView,
    post: StateView,
    outcome: Result<StateView, CipherError>,
) -> bool {
    match r {
        Ok(_) => outcome == Ok::<StateView, CipherError>(post),
        Err(e) => outcome == Err::<StateView, CipherError>(e) && post == pre,
    }
}

/// A query's result `r` matches `expected`.
pub open spec fn answered<T: DeepView>(
    r: Result<T, CipherError>,
    expected: Result<T::V, CipherError>,
) -> bool {
    match r {
        Ok(x) => expected == Ok::<T::V, CipherError>(x.deep_view()),
        Err(e) => expected == Err::<T::V, CipherError>(e),
    }
}

// ---------------------------------------------------------------- user details

pub open spec fn blank_details(user: Seq<char>) -> UserDetailsView {
    UserDetailsView {
        user_id: user,
        name: None,
        phone: None,
        email: None,
        wallet_id: None,
        access_list: Seq::empty(),
    }
}

pub open spec fn pick(given: Option<Seq<char>>, current: Option<Seq<char>>) -> Option<Seq<char>> {
    if given is Some {
        given
    } else {
        current
    }
}

/// Stored details with the given name, phone, email and (non-empty) access list laid over them.
pub open spec fn merged_details(cur: UserDetailsView, d: UserDetailsView) -> UserDetailsView {
    UserDetailsView {
        name: pick(d.name, cur.name),
        phone: pick(d.phone, cur.phone),
        email: pick(d.email, cur.email),
        access_list: if d.access_list.len() > 0 {
            d.access_list
        } else {
            cur.access_list
        },
        ..cur
    }
}

pub open spec fn details_of(v: StateView, user: Seq<char>) -> UserDetailsView {
    match lookup(v.user_details, user) {
        Some(d) => d,
        None => blank_details(user),
    }
}

pub open spec fn update_details_outcome(v: StateView, d: UserDetailsView, caller: Seq<char>) -> Result<
    StateView,
    CipherError,
> {
    if caller != d.user_id {
        Err(CipherError::Authorization)
    } else {
        Ok(
            StateView {
                user_details: put(
                    v.user_details,
                    caller,
                    merged_details(details_of(v, caller), d),
                ),
                ..v
            },
        )
    }
}

pub open spec fn requests_of(v: StateView, user: Seq<char>) -> Seq<Seq<char>> {
    match lookup(v.access_requests, user) {
        Some(r) => r,
        None => Seq::empty(),
    }
}

pub open spec fn request_details_outcome(
    v: StateView,
    target: Seq<char>,
    requester: Seq<char>,
) -> Result<StateView, CipherError> {
    if target == requester {
        Err(CipherError::Validation)
    } else {
        Ok(
            StateView {
                access_requests: put(
                    v.access_requests,
                    target,
                    add_id(requests_of(v, target), requester),
                ),
                ..v
            },
        )
    }
}

pub open spec fn grant_details_outcome(v: StateView, grantee: Seq<char>, caller: Seq<char>) -> Result<
    StateView,
    CipherError,
> {
    match lookup(v.user_details, caller) {
        None => Err(CipherError::NotFound),
        Some(d) => Ok(
            StateView {
                user_details: put(
                    v.user_details,
                    caller,
                    UserDetailsView { access_list: add_id(d.access_list, grantee), ..d },
                ),
                ..v
            },
        ),
    }
}

pub open spec fn user_details_result(v: StateView, user: Seq<char>, caller: Seq<char>) -> Result<
    UserDetailsView,
    CipherError,
> {
    match lookup(v.user_details, user) {
        None => Err(CipherError::NotFound),
        Some(d) => if d.user_id == caller || d.access_list.contains(caller) {
            Ok(d)
        } else {
            Err(CipherError::Authorization)
        },
    }
}

pub open spec fn shares_details_with(caller: Seq<char>) -> spec_fn(UserDetailsView) -> bool {
    |d: UserDetailsView| d.user_id != caller && d.access_list.contains(caller)
}

// ---------------------------------------------------------------- messages

/// The message a member sends into a case: addressed to everyone in the case at that moment.
pub open spec fn new_message(
    c: CaseView,
    sender: Seq<char>,
    ciphertext: Seq<u8>,
    iv: Seq<u8>,
    mode: MessageMode,
    timestamp: u64,
) -> MessageView {
    MessageView {
        ciphertext,
        iv,
        sender_id: sender,
        recipient_ids: c.participants(),
        timestamp,
        mode,
        read_receipts: Seq::empty(),
    }
}

/// The client or a lawyer of the case may send into it.
pub open spec fn may_send(c: CaseView, sender: Seq<char>) -> bool {
    c.is_client(sender) || c.lawyer_ids.contains(sender)
}

pub open spec fn send_outcome(
    v: StateView,
    sender: Seq<char>,
    case_id: Seq<char>,
    ciphertext: Seq<u8>,
    iv: Seq<u8>,
    mode: MessageMode,
    timestamp: u64,
) -> Result<StateView, CipherError> {
    match lookup(v.cases, case_id) {
        None => Err(CipherError::NotFound),
        Some(c) => if !may_send(c, sender) {
            Err(CipherError::Authorization)
        } else {
            Ok(
                StateView {
                    messages: put(
                        v.messages,
                        case_id,
                        v.log_of(case_id).push(
                            new_message(c, sender, ciphertext, iv, mode, timestamp),
                        ),
                    ),
                    ..v
                },
            )
        },
    }
}

/// The log after `reader` reads message `idx`: a receipt is kept; a vanishing message
/// leaves the reader's view, and the log once nobody is left.
pub open spec fn log_after_read(log: Seq<MessageView>, idx: int, reader: Seq<char>) -> Seq<
    MessageView,
> {
    let m = log[idx];
    let read = MessageView { read_receipts: add_id(m.read_receipts, reader), ..m };
    match m.mode {
        MessageMode::Persistent => log.update(idx, read),
        MessageMode::Vanish => {
            let left = drop_id(m.recipient_ids, reader);
            if left.len() == 0 {
                log.remove(idx)
            } else {
                log.update(idx, MessageView { recipient_ids: left, ..read })
            }
        },
    }
}

pub open spec fn mark_read_outcome(
    v: StateView,
    case_id: Seq<char>,
    idx: int,
    reader: Seq<char>,
) -> Result<StateView, CipherError> {
    let log = v.log_of(case_id);
    if idx < 0 || idx >= log.len() {
        Err(CipherError::NotFound)
    } else if !log[idx].recipient_ids.contains(reader) {
        Err(CipherError::Authorization)
    } else {
        Ok(
            StateView {
                messages: put(v.messages, case_id, log_after_read(log, idx, reader)),
                ..v
            },
        )
    }
}

pub open spec fn addressed_to(reader: Seq<char>) -> spec_fn(MessageView) -> bool {
    |m: MessageView| m.recipient_ids.contains(reader)
}

/// The whole log of a case, for any current member.
pub open spec fn case_messages_result(v: StateView, case_id: Seq<char>, requester: Seq<char>) -> Result<
    Seq<MessageView>,
    CipherError,
> {
    match lookup(v.cases, case_id) {
        None => Err(CipherError::NotFound),
        Some(c) => if !c.is_member(requester) {
            Err(CipherError::Authorization)
        } else {
            Ok(v.log_of(case_id))
        },
    }
}

/// The messages of a case still addressed to the requester, for any current member.
pub open spec fn visible_messages_result(
    v: StateView,
    case_id: Seq<char>,
    requester: Seq<char>,
) -> Result<Seq<MessageView>, CipherError> {
    match case_messages_result(v, case_id, requester) {
        Err(e) => Err(e),
        Ok(log) => Ok(log.filter(addressed_to(requester))),
    }
}

// ---------------------------------------------------------------- analyses

pub open spec fn update_analysis_outcome(
    v: StateView,
    analysis_id: Seq<char>,
    summary: Seq<char>,
    risks: u8,
    recommendations: Seq<Seq<char>>,
) -> Result<StateView, CipherError> {
    match lookup(v.ai_results, analysis_id) {
        None => Err(CipherError::NotFound),
        Some(a) => Ok(
            StateView {
                ai_results: put(
                    v.ai_results,
                    analysis_id,
                    AnalysisView { summary, risks_detected: risks, recommendations, ..a },
                ),
                ..v
            },
        ),
    }
}

// ---------------------------------------------------------------- cases

pub open spec fn active_status() -> Seq<char> {
    seq!['a', 'c', 't', 'i', 'v', 'e']
}

pub open spec fn lawyer_role() -> Seq<char> {
    seq!['l', 'a', 'w', 'y', 'e', 'r']
}

pub open spec fn client_role() -> Seq<char> {
    seq!['c', 'l', 'i', 'e', 'n', 't']
}

/// The id of a case opened under `name` at time `t`.
pub open spec fn case_key(name: Seq<char>, t: u64) -> Seq<char> {
    name + seq!['_'] + decimal(t as nat)
}

/// `n` plus signs.
pub open spec fn pluses(n: nat) -> Seq<char> {
    Seq::new(n, |i: int| '+')
}

/// The length of the longest key of `s`.
pub open spec fn longest_key<X>(s: Seq<(Seq<char>, X)>) -> nat
    decreases s.len(),
{
    if s.len() == 0 {
        0
    } else {
        let m = longest_key(s.drop_last());
        if s.last().0.len() > m {
            s.last().0.len()
        } else {
            m
        }
    }
}

/// The first count of plus signs, from `n` on, that turns `base` into a key not yet in `s`.
pub open spec fn first_free<X>(s: Seq<(Seq<char>, X)>, base: Seq<char>, n: nat) -> nat
    decreases longest_key(s) + 1 - n,
{
    if n > longest_key(s) || !has_key(s, base + pluses(n)) {
        n
    } else {
        first_free(s, base, n + 1)
    }
}

/// The id a case opened under `name` at time `t` gets: `name_t`, followed by as few plus
/// signs as make it a key no case has yet.
pub open spec fn fresh_case_key(cases: Seq<(Seq<char>, CaseView)>, name: Seq<char>, t: u64) -> Seq<
    char,
> {
    case_key(name, t) + pluses(first_free(cases, case_key(name, t), 0))
}

pub proof fn lemma_longest_key<X>(s: Seq<(Seq<char>, X)>)
    ensures
        forall|i: int| 0 <= i < s.len() ==> (#[trigger] s[i]).0.len() <= longest_key(s),
    decreases s.len(),
{
    if s.len() > 0 {
        lemma_longest_key(s.drop_last());
        assert forall|i: int| 0 <= i < s.len() implies (#[trigger] s[i]).0.len() <= longest_key(s) by {
            if i < s.len() - 1 {
                assert(s[i] == s.drop_last()[i]);
            }
        }
    }
}

/// A key longer than every key of `s` is not in `s`.
pub proof fn lemma_long_key_free<X>(s: Seq<(Seq<char>, X)>, k: Seq<char>)
    requires
        k.len() > longest_key(s),
    ensures
        !has_key(s, k),
{
    lemma_longest_key(s);
    if has_key(s, k) {
        let i = key_pos(s, k);
        assert(s[i].0.len() <= longest_key(s));
    }
}

/// The first free count is free, and every count before it (from `n`) is taken.
pub proof fn lemma_first_free<X>(s: Seq<(Seq<char>, X)>, base: Seq<char>, n: nat)
    ensures
        first_free(s, base, n) >= n,
        !has_key(s, base + pluses(first_free(s, base, n))),
        forall|m: nat| n <= m < first_free(s, base, n) ==> has_key(s, #[trigger] (base + pluses(m))),
    decreases longest_key(s) + 1 - n,
{
    if n > longest_key(s) {
        lemma_long_key_free(s, base + pluses(n));
    } else if has_key(s, base + pluses(n)) {
        lemma_first_free(s, base, n + 1);
    }
}

pub open spec fn opened_case(p: CaseCreateParams, id: Seq<char>) -> CaseView {
    CaseView {
        case_id: id,
        case_name: p.case_name@,
        client_id: match p.client_id {
            Some(c) => c@,
            None => Seq::empty(),
        },
        lawyer_ids: seq![p.admin_id@],
        admin_id: p.admin_id@,
        status: active_status(),
        related_documents: match p.initial_docs {
            Some(d) => ids_view(d),
            None => Seq::empty(),
        },
        privacy_level: p.privacy_level,
    }
}

pub open spec fn open_case_outcome(v: StateView, p: CaseCreateParams, t: u64) -> Result<
    StateView,
    CipherError,
> {
    if p.case_name@.len() == 0 || p.description@.len() == 0 || p.admin_id@.len() == 0 {
        Err(CipherError::Validation)
    } else {
        let id = fresh_case_key(v.cases, p.case_name@, t);
        Ok(StateView { cases: put(v.cases, id, opened_case(p, id)), ..v })
    }
}

pub open spec fn involves(user: Seq<char>) -> spec_fn(CaseView) -> bool {
    |c: CaseView| c.is_member(user)
}

pub open spec fn add_member_outcome(
    v: StateView,
    caller: Seq<char>,
    case_id: Seq<char>,
    member: Seq<char>,
    role: Seq<char>,
) -> Result<StateView, CipherError> {
    match lookup(v.cases, case_id) {
        None => Err(CipherError::NotFound),
        Some(c) => if !c.is_member(caller) {
            Err(CipherError::Authorization)
        } else if role == lawyer_role() {
            Ok(
                StateView {
                    cases: put(
                        v.cases,
                        case_id,
                        CaseView { lawyer_ids: add_id(c.lawyer_ids, member), ..c },
                    ),
                    ..v
                },
            )
        } else if role == client_role() {
            if c.has_client() {
                Err(CipherError::Conflict)
            } else {
                Ok(
                    StateView {
                        cases: put(v.cases, case_id, CaseView { client_id: member, ..c }),
                        ..v
                    },
                )
            }
        } else {
            Err(CipherError::Validation)
        },
    }
}

/// The members of a case: the lawyers in order (the admin flagged), then the client if any.
pub open spec fn members_of(c: CaseView) -> Seq<MemberView> {
    c.lawyer_ids.map_values(
        |l: Seq<char>| MemberView { member_id: l, role: MemberRole::Lawyer, is_admin: l == c.admin_id },
    ) + if c.has_client() {
        seq![MemberView { member_id: c.client_id, role: MemberRole::Client, is_admin: false }]
    } else {
        Seq::empty()
    }
}

pub open spec fn members_result(v: StateView, case_id: Seq<char>, caller: Seq<char>) -> Result<
    Seq<MemberView>,
    CipherError,
> {
    match lookup(v.cases, case_id) {
        None => Err(CipherError::NotFound),
        Some(c) => if !c.is_member(caller) {
            Err(CipherError::Authorization)
        } else {
            Ok(members_of(c))
        },
    }
}

// ---------------------------------------------------------------- documents

pub open spec fn new_document(
    owner: Seq<char>,
    content: Seq<u8>,
    hash: Seq<char>,
    doc_type: Seq<char>,
    case_id: Option<Seq<char>>,
    timestamp: u64,
) -> DocumentView {
    DocumentView {
        encrypted_content: content,
        document_hash: hash,
        document_type: doc_type,
        owner_id: owner,
        case_id,
        access_list: seq![owner],
        ai_analysis_id: None,
        timestamp,
    }
}

/// A document is stored under `hash` and someone other than `owner` owns it.
pub open spec fn held_by_another(v: StateView, hash: Seq<char>, owner: Seq<char>) -> bool {
    match lookup(v.documents, hash) {
        Some(d) => d.owner_id != owner,
        None => false,
    }
}

/// A document is stored under `hash` and belongs to a case other than `case_id`.
pub open spec fn tied_elsewhere(v: StateView, hash: Seq<char>, case_id: Seq<char>) -> bool {
    match lookup(v.documents, hash) {
        Some(d) => d.case_id is Some && d.case_id != Some(case_id),
        None => false,
    }
}

/// Stores a free-standing document; its owner may store it again, which replaces it.
pub open spec fn store_outcome(
    v: StateView,
    content: Seq<u8>,
    hash: Seq<char>,
    doc_type: Seq<char>,
    owner: Seq<char>,
    timestamp: u64,
) -> Result<StateView, CipherError> {
    if held_by_another(v, hash, owner) {
        Err(CipherError::Conflict)
    } else {
        Ok(
            StateView {
                documents: put(
                    v.documents,
                    hash,
                    new_document(owner, content, hash, doc_type, None, timestamp),
                ),
                ..v
            },
        )
    }
}

/// Who a grant to `grantee` admits: everyone in the case of that id at this moment,
/// or else `grantee` alone.
pub open spec fn granted_list(v: StateView, list: Seq<Seq<char>>, grantee: Seq<char>) -> Seq<
    Seq<char>,
> {
    match lookup(v.cases, grantee) {
        Some(c) => add_ids(list, c.participants()),
        None => add_id(list, grantee),
    }
}

pub open spec fn grant_outcome(
    v: StateView,
    hash: Seq<char>,
    grantee: Seq<char>,
    caller: Seq<char>,
) -> Result<StateView, CipherError> {
    match lookup(v.documents, hash) {
        None => Err(CipherError::NotFound),
        Some(d) => if d.owner_id != caller {
            Err(CipherError::Authorization)
        } else {
            Ok(
                StateView {
                    documents: put(
                        v.documents,
                        hash,
                        DocumentView { access_list: granted_list(v, d.access_list, grantee), ..d },
                    ),
                    ..v
                },
            )
        },
    }
}

pub open spec fn readable_by(caller: Seq<char>) -> spec_fn(DocumentView) -> bool {
    |d: DocumentView| d.owner_id == caller || d.access_list.contains(caller)
}

pub open spec fn upload_outcome(
    v: StateView,
    content: Seq<u8>,
    hash: Seq<char>,
    doc_type: Seq<char>,
    case_id: Seq<char>,
    caller: Seq<char>,
    timestamp: u64,
) -> Result<StateView, CipherError> {
    match lookup(v.cases, case_id) {
        None => Err(CipherError::NotFound),
        Some(c) => if !c.is_member(caller) {
            Err(CipherError::Authorization)
        } else if held_by_another(v, hash, caller) || tied_elsewhere(v, hash, case_id) {
            Err(CipherError::Conflict)
        } else {
            Ok(
                StateView {
                    documents: put(
                        v.documents,
                        hash,
                        new_document(caller, content, hash, doc_type, Some(case_id), timestamp),
                    ),
                    cases: put(
                        v.cases,
                        case_id,
                        CaseView { related_documents: add_id(c.related_documents, hash), ..c },
                    ),
                    ..v
                },
            )
        },
    }
}

/// The stored documents among `hashes`, in that order; hashes with no document are skipped.
pub open spec fn docs_for(docs: Seq<(Seq<char>, DocumentView)>, hashes: Seq<Seq<char>>) -> Seq<
    DocumentView,
>
    decreases hashes.len(),
{
    if hashes.len() == 0 {
        Seq::empty()
    } else {
        let before = docs_for(docs, hashes.drop_last());
        match lookup(docs, hashes.last()) {
            Some(d) => before.push(d),
            None => before,
        }
    }
}

pub open spec fn case_documents_result(v: StateView, case_id: Seq<char>, caller: Seq<char>) -> Result<
    Seq<DocumentView>,
    CipherError,
> {
    match lookup(v.cases, case_id) {
        None => Err(CipherError::NotFound),
        Some(c) => if !c.is_member(caller) {
            Err(CipherError::Authorization)
        } else {
            Ok(docs_for(v.documents, c.related_documents))
        },
    }
}

// ---------------------------------------------------------------- consent

/// The key of the consent a client gave a lawyer: `client:lawyer`.
pub open spec fn consent_key(client: Seq<char>, lawyer: Seq<char>) -> Seq<char> {
    client + seq![':'] + lawyer
}

/// A document entry after `client` withdraws `lawyer`'s consent; the owner always stays.
pub open spec fn revoked_entry(e: (Seq<char>, DocumentView), client: Seq<char>, lawyer: Seq<char>) -> (
    Seq<char>,
    DocumentView,
) {
    if e.1.owner_id == client && lawyer != client {
        (e.0, DocumentView { access_list: drop_id(e.1.access_list, lawyer), ..e.1 })
    } else {
        e
    }
}

pub open spec fn revoke_outcome(v: StateView, client: Seq<char>, lawyer: Seq<char>) -> StateView {
    StateView {
        consents: erase(v.consents, consent_key(client, lawyer)),
        documents: v.documents.map_values(
            |e: (Seq<char>, DocumentView)| revoked_entry(e, client, lawyer),
        ),
        ..v
    }
}

} // verus!
