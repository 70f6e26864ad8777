//! Records of the legal collaboration engine and their mathematical views.
use vstd::prelude::*;

verus! {

/// Identifier lists viewed as sequences of character sequences.
pub open spec fn ids_view(v: Vec<String>) -> Seq<Seq<char>> {
    v.deep_view()
}

pub open spec fn opt_view(o: Option<String>) -> Option<Seq<char>> {
    match o {
        Some(s) => Some(s@),
        None => None,
    }
}

pub fn clone_ids(v: &Vec<String>) -> (r: Vec<String>)
    ensures
        r.deep_view() == v.deep_view(),
{
    let r = v.clone();
    assert(r.deep_view() =~= v.deep_view());
    r
}

pub fn clone_bytes(v: &Vec<u8>) -> (r: Vec<u8>)
    ensures
        r@ == v@,
{
    let r = v.clone();
    assert(r@ =~= v@);
    r
}

pub fn clone_messages(v: &Vec<EncryptedMessage>) -> (r: Vec<EncryptedMessage>)
    ensures
        r.deep_view() == v.deep_view(),
{
    let mut r: Vec<EncryptedMessage> = Vec::new();
    let mut i: usize = 0;
    while i < v.len()
        invariant
            i <= v.len(),
            r.deep_view() == v.deep_view().take(i as int),
        decreases v.len() - i,
    {
        let m = v[i].clone();
        assert(m@ == v@[i as int]@);
        let ghost before = r.deep_view();
        r.push(m);
        assert(r.deep_view() =~= before.push(m@));
        assert(v.deep_view().take(i + 1) =~= v.deep_view().take(i as int).push(m@));
        i = i + 1;
    }
    assert(v.deep_view().take(i as int) =~= v.deep_view());
    r
}

pub fn clone_opt(o: &Option<String>) -> (r: Option<String>)
    ensures
        opt_view(r) == opt_view(*o),
{
    match o {
        Some(s) => Some(s.clone()),
        None => None,
    }
}

/// How a message behaves once read: it vanishes per reader, or it stays.
#[derive(PartialEq, Eq, Structural, Clone, Copy, Debug)]
pub enum MessageMode {
    Vanish,
    Persistent,
}

#[derive(PartialEq, Eq, Structural, Clone, Copy, Debug)]
pub enum PrivacyLevel {
    Private,
    Public,
}

impl Default for PrivacyLevel {
    fn default() -> (r: Self)
        ensures
            r == PrivacyLevel::Private,
    {
        PrivacyLevel::Private
    }
}

/// The role under which a member belongs to a case.
#[derive(PartialEq, Eq, Structural, Clone, Copy, Debug)]
pub enum MemberRole {
    Lawyer,
    Client,
}

// ---------------------------------------------------------------- user details

#[allow(non_camel_case_types)]
#[derive(Debug)]
pub struct user_details {
    pub user_id: String,
    pub name: Option<String>,
    pub phone: Option<String>,
    pub email: Option<String>,
    pub wallet_id: Option<String>,
    /// Identifiers allowed to read these details.
    pub access_list: Vec<String>,
}

pub struct UserDetailsView {
    pub user_id: Seq<char>,
    pub name: Option<Seq<char>>,
    pub phone: Option<Seq<char>>,
    pub email: Option<Seq<char>>,
    pub wallet_id: Option<Seq<char>>,
    pub access_list: Seq<Seq<char>>,
}

impl View for user_details {
    type V = UserDetailsView;

    open spec fn view(&self) -> UserDetailsView {
        UserDetailsView {
            user_id: self.user_id@,
            name: opt_view(self.name),
            phone: opt_view(self.phone),
            email: opt_view(self.email),
            wallet_id: opt_view(self.wallet_id),
            access_list: ids_view(self.access_list),
        }
    }
}

impl DeepView for user_details {
    type V = UserDetailsView;

    open spec fn deep_view(&self) -> UserDetailsView {
        self@
    }
}

impl Clone for user_details {
    fn clone(&self) -> (r: Self)
        ensures
            r@ == self@,
    {
        user_details {
            user_id: self.user_id.clone(),
            name: clone_opt(&self.name),
            phone: clone_opt(&self.phone),
            email: clone_opt(&self.email),
            wallet_id: clone_opt(&self.wallet_id),
            access_list: clone_ids(&self.access_list),
        }
    }
}

// ---------------------------------------------------------------- case member

/// A member of a case as listed: derived from a case, never stored.
#[derive(Debug)]
pub struct CaseMember {
    pub member_id: String,
    pub role: MemberRole,
    pub is_admin: bool,
}

pub struct MemberView {
    pub member_id: Seq<char>,
    pub role: MemberRole,
    pub is_admin: bool,
}

impl View for CaseMember {
    type V = MemberView;

    open spec fn view(&self) -> MemberView {
        MemberView { member_id: self.member_id@, role: self.role, is_admin: self.is_admin }
    }
}

impl DeepView for CaseMember {
    type V = MemberView;

    open spec fn deep_view(&self) -> MemberView {
        self@
    }
}

impl Clone for CaseMember {
    fn clone(&self) -> (r: Self)
        ensures
            r@ == self@,
    {
        CaseMember { member_id: self.member_id.clone(), role: self.role, is_admin: self.is_admin }
    }
}

// ---------------------------------------------------------------- case creation

#[derive(Debug)]
pub struct CaseCreateParams {
    pub admin_id: String,
    pub case_name: String,
    pub description: String,
    pub client_id: Option<String>,
    pub privacy_level: PrivacyLevel,
    pub initial_docs: Option<Vec<String>>,
}

// ---------------------------------------------------------------- documents

#[derive(Debug)]
pub struct LegalDocument {
    pub encrypted_content: Vec<u8>,
    pub document_hash: String,
    pub document_type: String,
    pub owner_id: String,
    pub case_id: Option<String>,
    /// Identifiers allowed to read the document; the owner is always among them.
    pub access_list: Vec<String>,
    pub ai_analysis_id: Option<String>,
    pub timestamp: u64,
}

pub struct DocumentView {
    pub encrypted_content: Seq<u8>,
    pub document_hash: Seq<char>,
    pub document_type: Seq<char>,
    pub owner_id: Seq<char>,
    pub case_id: Option<Seq<char>>,
    pub access_list: Seq<Seq<char>>,
    pub ai_analysis_id: Option<Seq<char>>,
    pub timestamp: u64,
}

impl View for LegalDocument {
    type V = DocumentView;

    open spec fn view(&self) -> DocumentView {
        DocumentView {
            encrypted_content: self.encrypted_content@,
            document_hash: self.document_hash@,
            document_type: self.document_type@,
            owner_id: self.owner_id@,
            case_id: opt_view(self.case_id),
            access_list: ids_view(self.access_list),
            ai_analysis_id: opt_view(self.ai_analysis_id),
            timestamp: self.timestamp,
        }
    }
}

impl DeepView for LegalDocument {
    type V = DocumentView;

    open spec fn deep_view(&self) -> DocumentView {
        self@
    }
}

impl Clone for LegalDocument {
    fn clone(&self) -> (r: Self)
        ensures
            r@ == self@,
    {
        LegalDocument {
            encrypted_content: clone_bytes(&self.encrypted_content),
            document_hash: self.document_hash.clone(),
            document_type: self.document_type.clone(),
            owner_id: self.owner_id.clone(),
            case_id: clone_opt(&self.case_id),
            access_list: clone_ids(&self.access_list),
            ai_analysis_id: clone_opt(&self.ai_analysis_id),
            timestamp: self.timestamp,
        }
    }
}

// ---------------------------------------------------------------- messages

#[derive(Debug)]
pub struct EncryptedMessage {
    pub ciphertext: Vec<u8>,
    pub iv: Vec<u8>,
    pub sender_id: String,
    /// Who may still read the message.
    pub recipient_ids: Vec<String>,
    pub timestamp: u64,
    pub mode: MessageMode,
    /// Who has read the message.
    pub read_receipts: Vec<String>,
}

pub struct MessageView {
    pub ciphertext: Seq<u8>,
    pub iv: Seq<u8>,
    pub sender_id: Seq<char>,
    pub recipient_ids: Seq<Seq<char>>,
    pub timestamp: u64,
    pub mode: MessageMode,
    pub read_receipts: Seq<Seq<char>>,
}

impl View for EncryptedMessage {
    type V = MessageView;

    open spec fn view(&self) -> MessageView {
        MessageView {
            ciphertext: self.ciphertext@,
            iv: self.iv@,
            sender_id: self.sender_id@,
            recipient_ids: ids_view(self.recipient_ids),
            timestamp: self.timestamp,
            mode: self.mode,
            read_receipts: ids_view(self.read_receipts),
        }
    }
}

impl DeepView for EncryptedMessage {
    type V = MessageView;

    open spec fn deep_view(&self) -> MessageView {
        self@
    }
}

impl Clone for EncryptedMessage {
    fn clone(&self) -> (r: Self)
        ensures
            r@ == self@,
    {
        EncryptedMessage {
            ciphertext: clone_bytes(&self.ciphertext),
            iv: clone_bytes(&self.iv),
            sender_id: self.sender_id.clone(),
            recipient_ids: clone_ids(&self.recipient_ids),
            timestamp: self.timestamp,
            mode: self.mode,
            read_receipts: clone_ids(&self.read_receipts),
        }
    }
}

// ---------------------------------------------------------------- cases

#[derive(Debug)]
pub struct LegalCase {
    pub case_id: String,
    pub case_name: String,
    /// Empty while the case has no client.
    pub client_id: String,
    pub lawyer_ids: Vec<String>,
    pub admin_id: String,
    pub status: String,
    pub related_documents: Vec<String>,
    pub privacy_level: PrivacyLevel,
}

pub struct CaseView {
    pub case_id: Seq<char>,
    pub case_name: Seq<char>,
    pub client_id: Seq<char>,
    pub lawyer_ids: Seq<Seq<char>>,
    pub admin_id: Seq<char>,
    pub status: Seq<char>,
    pub related_documents: Seq<Seq<char>>,
    pub privacy_level: PrivacyLevel,
}

impl CaseView {
    /// The client slot is filled.
    pub open spec fn has_client(self) -> bool {
        self.client_id.len() > 0
    }

    /// `u` is the client of the case.
    pub open spec fn is_client(self, u: Seq<char>) -> bool {
        self.has_client() && u == self.client_id
    }

    /// `u` is the admin, one of the lawyers, or the client.
    pub open spec fn is_member(self, u: Seq<char>) -> bool {
        u == self.admin_id || self.lawyer_ids.contains(u) || self.is_client(u)
    }

    /// The client, if any, then every other lawyer in order.
    pub open spec fn participants(self) -> Seq<Seq<char>> {
        if self.has_client() {
            seq![self.client_id] + crate::ids::drop_id(self.lawyer_ids, self.client_id)
        } else {
            self.lawyer_ids
        }
    }
}

impl View for LegalCase {
    type V = CaseView;

    open spec fn view(&self) -> CaseView {
        CaseView {
            case_id: self.case_id@,
            case_name: self.case_name@,
            client_id: self.client_id@,
            lawyer_ids: ids_view(self.lawyer_ids),
            admin_id: self.admin_id@,
            status: self.status@,
            related_documents: ids_view(self.related_documents),
            privacy_level: self.privacy_level,
        }
    }
}

impl DeepView for LegalCase {
    type V = CaseView;

    open spec fn deep_view(&self) -> CaseView {
        self@
    }
}

impl Clone for LegalCase {
    fn clone(&self) -> (r: Self)
        ensures
            r@ == self@,
    {
        LegalCase {
            case_id: self.case_id.clone(),
            case_name: self.case_name.clone(),
            client_id: self.client_id.clone(),
            lawyer_ids: clone_ids(&self.lawyer_ids),
            admin_id: self.admin_id.clone(),
            status: self.status.clone(),
            related_documents: clone_ids(&self.related_documents),
            privacy_level: self.privacy_level,
        }
    }
}

impl LegalCase {
    /// The caller is the client of this case.
    pub fn is_client(&self, u: &String) -> (r: bool)
        ensures
            r == self@.is_client(u@),
    {
        !self.client_id.as_str().is_empty() && self.client_id == *u
    }

    /// The caller is the admin, a lawyer, or the client of this case.
    pub fn has_member(&self, u: &String) -> (r: bool)
        ensures
            r == self@.is_member(u@),
    {
        self.admin_id == *u || crate::ids::contains_id(&self.lawyer_ids, u) || self.is_client(u)
    }

    /// Everyone a message of this case is addressed to: the client, then every lawyer
    /// other than the client; no one twice where no lawyer is listed twice.
    pub fn get_participants(&self) -> (r: Vec<String>)
        ensures
            r.deep_view() == self@.participants(),
            self@.lawyer_ids.no_duplicates() ==> r.deep_view().no_duplicates(),
    {
        let has_client = !self.client_id.as_str().is_empty();
        let ghost lawyers = ids_view(self.lawyer_ids);
        let ghost head = if has_client { seq![self.client_id@] } else { Seq::<Seq<char>>::empty() };
        let mut participants: Vec<String> = Vec::new();
        if has_client {
            participants.push(self.client_id.clone());
        }
        assert(participants.deep_view() =~= head);
        let mut i: usize = 0;
        while i < self.lawyer_ids.len()
            invariant
                i <= self.lawyer_ids.len(),
                lawyers == ids_view(self.lawyer_ids),
                has_client == self@.has_client(),
                head == (if has_client { seq![self.client_id@] } else { Seq::<Seq<char>>::empty() }),
                participants.deep_view() == head + (if has_client {
                    crate::ids::drop_id(lawyers.take(i as int), self.client_id@)
                } else {
                    lawyers.take(i as int)
                }),
            decreases self.lawyer_ids.len() - i,
        {
            let ghost before = participants.deep_view();
            let ghost x = lawyers[i as int];
            assert(lawyers.take(i + 1) =~= lawyers.take(i as int).push(x));
            proof {
                lawyers.take(i as int).lemma_filter_push(x, crate::ids::other_than(self.client_id@));
            }
            if !(has_client && self.lawyer_ids[i] == self.client_id) {
                let id = self.lawyer_ids[i].clone();
                participants.push(id);
                assert(participants.deep_view() =~= before.push(x));
            }
            i = i + 1;
        }
        assert(lawyers.take(i as int) =~= lawyers);
        assert(participants.deep_view() =~= self@.participants());
        proof {
            if self@.lawyer_ids.no_duplicates() {
                lemma_participants_no_duplicates(self@);
            }
        }
        participants
    }
}

/// Where no lawyer is listed twice, no participant is listed twice.
pub proof fn lemma_participants_no_duplicates(c: CaseView)
    requires
        c.lawyer_ids.no_duplicates(),
    ensures
        c.participants().no_duplicates(),
{
    if c.has_client() {
        let d = crate::ids::drop_id(c.lawyer_ids, c.client_id);
        crate::ids::lemma_drop_id_no_duplicates(c.lawyer_ids, c.client_id);
        crate::ids::lemma_drop_id_contains(c.lawyer_ids, c.client_id);
        let p = seq![c.client_id] + d;
        assert forall|i: int, j: int| 0 <= i < p.len() && 0 <= j < p.len() && i != j implies p[i] != p[j] by {
            if i == 0 {
                assert(p[j] == d[j - 1]);
                assert(d.contains(d[j - 1]));
            } else if j == 0 {
                assert(p[i] == d[i - 1]);
                assert(d.contains(d[i - 1]));
            } else {
                assert(p[i] == d[i - 1] && p[j] == d[j - 1]);
            }
        }
    }
}

// ---------------------------------------------------------------- consent

#[derive(Debug)]
pub struct LegalConsent {
    pub client_id: String,
    pub lawyer_id: String,
    /// What the lawyer may do: read, write, share, ...
    pub scope: String,
    pub expiration: u64,
    pub public_key: Vec<u8>,
    pub signed_message: Vec<u8>,
    pub signature: Vec<u8>,
}

pub struct ConsentView {
    pub client_id: Seq<char>,
    pub lawyer_id: Seq<char>,
    pub scope: Seq<char>,
    pub expiration: u64,
    pub public_key: Seq<u8>,
    pub signed_message: Seq<u8>,
    pub signature: Seq<u8>,
}

impl View for LegalConsent {
    type V = ConsentView;

    open spec fn view(&self) -> ConsentView {
        ConsentView {
            client_id: self.client_id@,
            lawyer_id: self.lawyer_id@,
            scope: self.scope@,
            expiration: self.expiration,
            public_key: self.public_key@,
            signed_message: self.signed_message@,
            signature: self.signature@,
        }
    }
}

impl DeepView for LegalConsent {
    type V = ConsentView;

    open spec fn deep_view(&self) -> ConsentView {
        self@
    }
}

// ---------------------------------------------------------------- payments

#[derive(Debug)]
pub struct PaymentStatus {
    pub payment_id: String,
    pub amount: u64,
    pub status: String,
    pub timestamp: u64,
}

pub struct PaymentView {
    pub payment_id: Seq<char>,
    pub amount: u64,
    pub status: Seq<char>,
    pub timestamp: u64,
}

impl View for PaymentStatus {
    type V = PaymentView;

    open spec fn view(&self) -> PaymentView {
        PaymentView {
            payment_id: self.payment_id@,
            amount: self.amount,
            status: self.status@,
            timestamp: self.timestamp,
        }
    }
}

impl DeepView for PaymentStatus {
    type V = PaymentView;

    open spec fn deep_view(&self) -> PaymentView {
        self@
    }
}

#[derive(Debug)]
pub struct PaymentRequest {
    pub document_hash: String,
    pub amount: u64,
    pub payer: Vec<u8>,
}

// ---------------------------------------------------------------- analysis

#[derive(Debug)]
pub struct AIAnalysisResult {
    pub analysis_id: String,
    pub document_hash: String,
    pub summary: String,
    pub risks_detected: u8,
    pub recommendations: Vec<String>,
    /// The service that produced the analysis.
    pub generated_by: String,
    pub timestamp: u64,
}

pub struct AnalysisView {
    pub analysis_id: Seq<char>,
    pub document_hash: Seq<char>,
    pub summary: Seq<char>,
    pub risks_detected: u8,
    pub recommendations: Seq<Seq<char>>,
    pub generated_by: Seq<char>,
    pub timestamp: u64,
}

impl View for AIAnalysisResult {
    type V = AnalysisView;

    open spec fn view(&self) -> AnalysisView {
        AnalysisView {
            analysis_id: self.analysis_id@,
            document_hash: self.document_hash@,
            summary: self.summary@,
            risks_detected: self.risks_detected,
            recommendations: ids_view(self.recommendations),
            generated_by: self.generated_by@,
            timestamp: self.timestamp,
        }
    }
}

impl DeepView for AIAnalysisResult {
    type V = AnalysisView;

    open spec fn deep_view(&self) -> AnalysisView {
        self@
    }
}

// ---------------------------------------------------------------- events

/// A notification that an operation publishes once it has committed.
#[derive(Debug)]
pub enum CipherEvent {
    MessageSent { case_id: String, sender: String, message: EncryptedMessage },
    DocumentUploaded { doc_hash: String, doc_type: String },
    AccessGranted { client_id: String, lawyer_id: String },
    CaseOpened { case_id: String },
    DocumentAnalyzed { doc_hash: String },
    ConsentRevoked { client_id: String, lawyer_id: String },
    AnalysisRequested { doc_hash: String, ai_canister: String },
    AnalysisCompleted { doc_hash: String, analysis_id: String },
    PaymentInitiated { doc_hash: String, payment_id: String },
    PaymentCompleted { doc_hash: String, payment_id: String },
    MemberAdded { case_id: String, member_id: String, role: String },
}

/// Why an operation was refused. A refused operation changes nothing.
#[derive(PartialEq, Eq, Structural, Clone, Copy, Debug)]
pub enum CipherError {
    /// The case, document, analysis or details referred to do not exist.
    NotFound,
    /// The caller lacks the role or list membership the operation needs.
    Authorization,
    /// An input is missing or malformed.
    Validation,
    /// The operation would break a uniqueness rule.
    Conflict,
}

} // verus!
