//! The data the ledger and the registry store, with their mathematical views.

use vstd::prelude::*;
use crate::account::AccountId;

verus! {

/// Cooldown between two reports from one submitter, in logical
/// milliseconds: 24 hours.
pub const COOLDOWN_MS: u64 = 86400000;

/// Most reports the ledger retains. An accepted submission beyond this
/// bound evicts the oldest retained report.
pub const MAX_REPORTS: usize = 490;

/// Most bytes a single caller-supplied field may hold; a larger field
/// cannot be persisted and the whole write is refused.
pub const MAX_FIELD_BYTES: usize = 16384;

/// The typed failures an operation can surface. Failures never leave a
/// partial write behind: an operation either commits whole or not at all.
#[derive(Clone, Copy, PartialEq, Eq, Structural, Debug)]
pub enum Error {
    /// The submitter reported less than `COOLDOWN_MS` after its previous
    /// report.
    CannotReportAgainWithin24Hours,
    /// The caller lacks the role the operation demands.
    GenericError,
    /// A supplied field exceeds `MAX_FIELD_BYTES`.
    DataTooLarge,
}

/// Contact details the shared directory keeps for a privileged account.
pub struct UserDetails {
    pub user_acct: AccountId,
    pub name: Vec<u8>,
    pub organization: Vec<u8>,
    pub phone: Vec<u8>,
    pub email: Vec<u8>,
}

/// The mathematical value of a directory entry.
#[verifier::ext_equal]
pub ghost struct UserDetailsView {
    pub user_acct: Seq<u8>,
    pub name: Seq<u8>,
    pub organization: Seq<u8>,
    pub phone: Seq<u8>,
    pub email: Seq<u8>,
}

impl View for UserDetails {
    type V = UserDetailsView;

    open spec fn view(&self) -> UserDetailsView {
        UserDetailsView {
            user_acct: self.user_acct@,
            name: self.name@,
            organization: self.organization@,
            phone: self.phone@,
            email: self.email@,
        }
    }
}

/// A filed report. Immutable once stored; owned by the ledger.
pub struct Report {
    pub report_id: [u8; 32],
    pub reporter_account: AccountId,
    pub reporter_legal_name: Vec<u8>,
    pub reporter_phone: Vec<u8>,
    pub accused_account: AccountId,
    pub geode_apps: Vec<u8>,
    pub activity_id_list: Vec<u8>,
    pub crime_category: Vec<u8>,
    pub crime_description: Vec<u8>,
    pub accused_location: Vec<u8>,
    pub timestamp: u64,
}

/// The mathematical value of a stored report.
#[verifier::ext_equal]
pub ghost struct ReportView {
    pub report_id: Seq<u8>,
    pub reporter_account: Seq<u8>,
    pub reporter_legal_name: Seq<u8>,
    pub reporter_phone: Seq<u8>,
    pub accused_account: Seq<u8>,
    pub geode_apps: Seq<u8>,
    pub activity_id_list: Seq<u8>,
    pub crime_category: Seq<u8>,
    pub crime_description: Seq<u8>,
    pub accused_location: Seq<u8>,
    pub timestamp: u64,
}

impl View for Report {
    type V = ReportView;

    open spec fn view(&self) -> ReportView {
        ReportView {
            report_id: self.report_id@,
            reporter_account: self.reporter_account@,
            reporter_legal_name: self.reporter_legal_name@,
            reporter_phone: self.reporter_phone@,
            accused_account: self.accused_account@,
            geode_apps: self.geode_apps@,
            activity_id_list: self.activity_id_list@,
            crime_category: self.crime_category@,
            crime_description: self.crime_description@,
            accused_location: self.accused_location@,
            timestamp: self.timestamp,
        }
    }
}

/// The notification payload a successful submission hands back for
/// publication. It carries only the non-sensitive subset of the report:
/// the submitter's legal name, phone and the crime description stay out.
pub struct NewSAReport {
    pub report_id: [u8; 32],
    pub reporter_account: AccountId,
    pub accused_account: AccountId,
    pub geode_apps: Vec<u8>,
    pub activity_id_list: Vec<u8>,
    pub crime_category: Vec<u8>,
    pub accused_location: Vec<u8>,
    pub timestamp: u64,
}

/// The mathematical value of a notification payload.
#[verifier::ext_equal]
pub ghost struct NewSAReportView {
    pub report_id: Seq<u8>,
    pub reporter_account: Seq<u8>,
    pub accused_account: Seq<u8>,
    pub geode_apps: Seq<u8>,
    pub activity_id_list: Seq<u8>,
    pub crime_category: Seq<u8>,
    pub accused_location: Seq<u8>,
    pub timestamp: u64,
}

impl View for NewSAReport {
    type V = NewSAReportView;

    open spec fn view(&self) -> NewSAReportView {
        NewSAReportView {
            report_id: self.report_id@,
            reporter_account: self.reporter_account@,
            accused_account: self.accused_account@,
            geode_apps: self.geode_apps@,
            activity_id_list: self.activity_id_list@,
            crime_category: self.crime_category@,
            accused_location: self.accused_location@,
            timestamp: self.timestamp,
        }
    }
}

/// The roster a delegate may read: every delegate's and every entity's
/// directory entry, in the order the accounts were first granted the role.
pub struct ViewAllowed {
    pub delegates: Vec<UserDetails>,
    pub entities: Vec<UserDetails>,
}

/// Byte-for-byte copy of a field buffer.
pub fn clone_bytes(v: &Vec<u8>) -> (r: Vec<u8>)
    ensures
        r@ == v@,
{
    let r = v.clone();
    proof {
        assert(r@ =~= v@);
    }
    r
}

impl UserDetails {
    /// A field-for-field copy.
    pub fn duplicate(&self) -> (r: UserDetails)
        ensures
            r@ == self@,
    {
        UserDetails {
            user_acct: self.user_acct,
            name: clone_bytes(&self.name),
            organization: clone_bytes(&self.organization),
            phone: clone_bytes(&self.phone),
            email: clone_bytes(&self.email),
        }
    }
}

impl Report {
    /// A field-for-field copy.
    pub fn duplicate(&self) -> (r: Report)
        ensures
            r@ == self@,
    {
        Report {
            report_id: self.report_id,
            reporter_account: self.reporter_account,
            reporter_legal_name: clone_bytes(&self.reporter_legal_name),
            reporter_phone: clone_bytes(&self.reporter_phone),
            accused_account: self.accused_account,
            geode_apps: clone_bytes(&self.geode_apps),
            activity_id_list: clone_bytes(&self.activity_id_list),
            crime_category: clone_bytes(&self.crime_category),
            crime_description: clone_bytes(&self.crime_description),
            accused_location: clone_bytes(&self.accused_location),
            timestamp: self.timestamp,
        }
    }
}

/// The 32 zero bytes that stand for "no account yet".
pub open spec fn zero_bytes() -> Seq<u8> {
    Seq::new(32, |i: int| 0u8)
}

impl Default for Report {
    /// The all-empty placeholder report: zero identifiers, empty
    /// fields, time zero.
    fn default() -> (r: Report)
        ensures
            r.report_id@ == zero_bytes(),
            r.reporter_account@ == zero_bytes(),
            r.accused_account@ == zero_bytes(),
            r.reporter_legal_name@ == Seq::<u8>::empty(),
            r.reporter_phone@ == Seq::<u8>::empty(),
            r.geode_apps@ == Seq::<u8>::empty(),
            r.activity_id_list@ == Seq::<u8>::empty(),
            r.crime_category@ == Seq::<u8>::empty(),
            r.crime_description@ == Seq::<u8>::empty(),
            r.accused_location@ == Seq::<u8>::empty(),
            r.timestamp == 0,
    {
        let r = Report {
            report_id: [0u8; 32],
            reporter_account: AccountId { bytes: [0u8; 32] },
            reporter_legal_name: Vec::new(),
            reporter_phone: Vec::new(),
            accused_account: AccountId { bytes: [0u8; 32] },
            geode_apps: Vec::new(),
            activity_id_list: Vec::new(),
            crime_category: Vec::new(),
            crime_description: Vec::new(),
            accused_location: Vec::new(),
            timestamp: 0,
        };
        proof {
            assert(r.report_id@ =~= zero_bytes());
        }
        r
    }
}

impl Default for UserDetails {
    /// The all-empty placeholder entry: a zero account, empty fields.
    fn default() -> (r: UserDetails)
        ensures
            r.user_acct@ == zero_bytes(),
            r.name@ == Seq::<u8>::empty(),
            r.organization@ == Seq::<u8>::empty(),
            r.phone@ == Seq::<u8>::empty(),
            r.email@ == Seq::<u8>::empty(),
    {
        let r = UserDetails {
            user_acct: AccountId { bytes: [0u8; 32] },
            name: Vec::new(),
            organization: Vec::new(),
            phone: Vec::new(),
            email: Vec::new(),
        };
        proof {
            assert(r.user_acct@ =~= zero_bytes());
        }
        r
    }
}

impl Default for ViewAllowed {
    /// The empty roster.
    fn default() -> (r: ViewAllowed)
        ensures
            r.delegates@ == Seq::<UserDetails>::empty(),
            r.entities@ == Seq::<UserDetails>::empty(),
    {
        ViewAllowed { delegates: Vec::new(), entities: Vec::new() }
    }
}

/// True when a caller-supplied field is too large to persist.
pub open spec fn field_oversized(f: Seq<u8>) -> bool {
    f.len() > MAX_FIELD_BYTES
}

/// Checks one field against the size bound.
pub fn check_field(f: &Vec<u8>) -> (r: bool)
    ensures
        r <==> field_oversized(f@),
{
    f.len() > MAX_FIELD_BYTES
}

} // verus!
