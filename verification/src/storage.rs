//! The contract state: report ledger, role registry and user directory,
//! with one mathematical model and one transition function per operation.

use vstd::prelude::*;
use vstd::pervasive::VecAdditionalExecFns;
use crate::account::AccountId;
use crate::assoc::{
    assoc_keys_unique, assoc_map, distinct_seq, lemma_assoc_map_entries, lemma_assoc_map_push,
    lemma_assoc_map_remove, lemma_assoc_map_update, lemma_remove_first_absent,
    lemma_remove_first_at, remove_first,
};
use crate::digest::{compute_report_id, report_digest};
use crate::types::{
    check_field, clone_bytes, field_oversized, Error, NewSAReport, NewSAReportView, Report,
    ReportView, UserDetails, UserDetailsView, ViewAllowed, COOLDOWN_MS, MAX_REPORTS,
};

verus! {

/// The mathematical value of the whole contract state.
#[verifier::ext_equal]
pub ghost struct StorageView {
    /// Last accepted submission time of every account that ever reported.
    pub timers: Map<Seq<u8>, u64>,
    /// Retained reports, oldest first.
    pub reports: Seq<ReportView>,
    /// The root legal authority, once bootstrapped.
    pub root: Option<Seq<u8>>,
    /// Delegate accounts, in the order the role was granted.
    pub delegates: Seq<Seq<u8>>,
    /// Law-enforcement entity accounts, in the order the role was granted.
    pub entities: Seq<Seq<u8>>,
    /// Contact details of every privileged account.
    pub directory: Map<Seq<u8>, UserDetailsView>,
}

/// The caller-supplied payload of one submission.
#[verifier::ext_equal]
pub ghost struct SubmissionView {
    pub legal_name: Seq<u8>,
    pub phone: Seq<u8>,
    pub accused: Seq<u8>,
    pub apps: Seq<u8>,
    pub activity_ids: Seq<u8>,
    pub category: Seq<u8>,
    pub description: Seq<u8>,
    pub location: Seq<u8>,
}

/// The caller-supplied contact details of one privileged account.
#[verifier::ext_equal]
pub ghost struct ProfileView {
    pub name: Seq<u8>,
    pub organization: Seq<u8>,
    pub phone: Seq<u8>,
    pub email: Seq<u8>,
}

pub open spec fn submission_view(
    legal_name: Seq<u8>,
    phone: Seq<u8>,
    accused: Seq<u8>,
    apps: Seq<u8>,
    activity_ids: Seq<u8>,
    category: Seq<u8>,
    description: Seq<u8>,
    location: Seq<u8>,
) -> SubmissionView {
    SubmissionView { legal_name, phone, accused, apps, activity_ids, category, description, location }
}

pub open spec fn profile_view(
    name: Seq<u8>,
    organization: Seq<u8>,
    phone: Seq<u8>,
    email: Seq<u8>,
) -> ProfileView {
    ProfileView { name, organization, phone, email }
}

/// The directory entry a profile makes for an account.
pub open spec fn details_of(acct: Seq<u8>, p: ProfileView) -> UserDetailsView {
    UserDetailsView {
        user_acct: acct,
        name: p.name,
        organization: p.organization,
        phone: p.phone,
        email: p.email,
    }
}

/// True when some field of the submission cannot be persisted.
pub open spec fn submission_oversized(s: SubmissionView) -> bool {
    ||| field_oversized(s.legal_name)
    ||| field_oversized(s.phone)
    ||| field_oversized(s.apps)
    ||| field_oversized(s.activity_ids)
    ||| field_oversized(s.category)
    ||| field_oversized(s.description)
    ||| field_oversized(s.location)
}

/// True when some field of the profile cannot be persisted.
pub open spec fn profile_oversized(p: ProfileView) -> bool {
    ||| field_oversized(p.name)
    ||| field_oversized(p.organization)
    ||| field_oversized(p.phone)
    ||| field_oversized(p.email)
}

/// The report a submission stores.
pub open spec fn new_report_view(caller: Seq<u8>, now: u64, s: SubmissionView) -> ReportView {
    ReportView {
        report_id: report_digest(caller, s.accused, s.activity_ids, now),
        reporter_account: caller,
        reporter_legal_name: s.legal_name,
        reporter_phone: s.phone,
        accused_account: s.accused,
        geode_apps: s.apps,
        activity_id_list: s.activity_ids,
        crime_category: s.category,
        crime_description: s.description,
        accused_location: s.location,
        timestamp: now,
    }
}

/// The non-sensitive notification payload of a stored report.
pub open spec fn event_view(r: ReportView) -> NewSAReportView {
    NewSAReportView {
        report_id: r.report_id,
        reporter_account: r.reporter_account,
        accused_account: r.accused_account,
        geode_apps: r.geode_apps,
        activity_id_list: r.activity_id_list,
        crime_category: r.crime_category,
        accused_location: r.accused_location,
        timestamp: r.timestamp,
    }
}

/// The notification payload a result carries, at the model level.
pub open spec fn event_result_view(r: Result<NewSAReport, Error>) -> Result<NewSAReportView, Error> {
    match r {
        Ok(e) => Ok(e@),
        Err(e) => Err(e),
    }
}

impl StorageView {
    /// The state a fresh contract starts from.
    pub open spec fn initial() -> StorageView {
        StorageView {
            timers: Map::empty(),
            reports: Seq::empty(),
            root: None,
            delegates: Seq::empty(),
            entities: Seq::empty(),
            directory: Map::empty(),
        }
    }

    /// The invariant every reachable state keeps: the ledger is within
    /// capacity, each role set lists an account at most once, the root
    /// holds a delegate seat, and every privileged account has a
    /// directory entry.
    pub open spec fn inv(self) -> bool {
        &&& self.reports.len() <= MAX_REPORTS as int
        &&& distinct_seq(self.delegates)
        &&& distinct_seq(self.entities)
        &&& (self.root matches Some(r) ==> self.delegates.contains(r))
        &&& forall|i: int|
            0 <= i < self.delegates.len() ==> self.directory.dom().contains(
                #[trigger] self.delegates[i],
            )
        &&& forall|i: int|
            0 <= i < self.entities.len() ==> self.directory.dom().contains(
                #[trigger] self.entities[i],
            )
    }

    pub open spec fn is_root(self, a: Seq<u8>) -> bool {
        self.root == Some(a)
    }

    pub open spec fn is_delegate(self, a: Seq<u8>) -> bool {
        self.delegates.contains(a)
    }

    pub open spec fn is_entity(self, a: Seq<u8>) -> bool {
        self.entities.contains(a)
    }

    /// Reports may be read by delegates and by entities.
    pub open spec fn may_view_reports(self, a: Seq<u8>) -> bool {
        self.is_delegate(a) || self.is_entity(a)
    }

    /// The cooldown blocks a submitter that already reported less than
    /// `COOLDOWN_MS` before `now`. An account that never reported is
    /// never blocked.
    pub open spec fn too_soon(self, caller: Seq<u8>, now: u64) -> bool {
        self.timers.dom().contains(caller) && (now as int) < self.timers[caller] + COOLDOWN_MS
    }

    /// One submission: the state it leads to and the outcome it returns.
    pub open spec fn submit(self, caller: Seq<u8>, now: u64, s: SubmissionView) -> (
        StorageView,
        Result<NewSAReportView, Error>,
    ) {
        if self.too_soon(caller, now) {
            (self, Err(Error::CannotReportAgainWithin24Hours))
        } else if submission_oversized(s) {
            (self, Err(Error::DataTooLarge))
        } else {
            let r = new_report_view(caller, now, s);
            let kept = if self.reports.len() < MAX_REPORTS as int {
                self.reports
            } else {
                self.reports.skip(1)
            };
            (
                StorageView {
                    timers: self.timers.insert(caller, now),
                    reports: kept.push(r),
                    ..self
                },
                Ok(event_view(r)),
            )
        }
    }

    /// Setting or rotating the root: allowed for anyone before the first
    /// bootstrap, afterwards for the current root alone. The new root
    /// gains a delegate seat and a directory entry.
    pub open spec fn bootstrap_root(self, caller: Seq<u8>, new_root: Seq<u8>, p: ProfileView) -> (
        StorageView,
        Result<(), Error>,
    ) {
        if !(self.root is None || self.is_root(caller)) {
            (self, Err(Error::GenericError))
        } else if profile_oversized(p) {
            (self, Err(Error::DataTooLarge))
        } else {
            let dels = if self.delegates.contains(new_root) {
                self.delegates
            } else {
                self.delegates.push(new_root)
            };
            (
                StorageView {
                    root: Some(new_root),
                    delegates: dels,
                    directory: self.directory.insert(new_root, details_of(new_root, p)),
                    ..self
                },
                Ok(()),
            )
        }
    }

    /// Adding a delegate: the root alone may; re-adding one only
    /// refreshes its directory entry.
    pub open spec fn add_delegate(self, caller: Seq<u8>, a: Seq<u8>, p: ProfileView) -> (
        StorageView,
        Result<(), Error>,
    ) {
        if !self.is_root(caller) {
            (self, Err(Error::GenericError))
        } else if profile_oversized(p) {
            (self, Err(Error::DataTooLarge))
        } else {
            let dels = if self.delegates.contains(a) {
                self.delegates
            } else {
                self.delegates.push(a)
            };
            (
                StorageView {
                    delegates: dels,
                    directory: self.directory.insert(a, details_of(a, p)),
                    ..self
                },
                Ok(()),
            )
        }
    }

    /// Removing a delegate: the root alone may; an absent account is a
    /// no-op, the root keeps its own delegate seat, and the directory
    /// entry goes only when the account holds no other role.
    pub open spec fn remove_delegate(self, caller: Seq<u8>, a: Seq<u8>) -> (
        StorageView,
        Result<(), Error>,
    ) {
        if !self.is_root(caller) {
            (self, Err(Error::GenericError))
        } else if self.is_root(a) {
            (self, Ok(()))
        } else {
            (
                StorageView {
                    delegates: remove_first(self.delegates, a),
                    directory: if self.entities.contains(a) {
                        self.directory
                    } else {
                        self.directory.remove(a)
                    },
                    ..self
                },
                Ok(()),
            )
        }
    }

    /// Granting entity access: any delegate may; re-adding one only
    /// refreshes its directory entry.
    pub open spec fn add_entity(self, caller: Seq<u8>, a: Seq<u8>, p: ProfileView) -> (
        StorageView,
        Result<(), Error>,
    ) {
        if !self.is_delegate(caller) {
            (self, Err(Error::GenericError))
        } else if profile_oversized(p) {
            (self, Err(Error::DataTooLarge))
        } else {
            let ents = if self.entities.contains(a) {
                self.entities
            } else {
                self.entities.push(a)
            };
            (
                StorageView {
                    entities: ents,
                    directory: self.directory.insert(a, details_of(a, p)),
                    ..self
                },
                Ok(()),
            )
        }
    }

    /// Revoking entity access: any delegate may; an absent account is a
    /// no-op, and the directory entry goes only when the account holds
    /// no other role.
    pub open spec fn remove_entity(self, caller: Seq<u8>, a: Seq<u8>) -> (
        StorageView,
        Result<(), Error>,
    ) {
        if !self.is_delegate(caller) {
            (self, Err(Error::GenericError))
        } else {
            (
                StorageView {
                    entities: remove_first(self.entities, a),
                    directory: if self.delegates.contains(a) {
                        self.directory
                    } else {
                        self.directory.remove(a)
                    },
                    ..self
                },
                Ok(()),
            )
        }
    }

    /// What a reader sees of the ledger: every retained report in
    /// insertion order for a privileged caller, nothing for anyone else.
    pub open spec fn reports_visible(self, caller: Seq<u8>) -> Seq<ReportView> {
        if self.may_view_reports(caller) {
            self.reports
        } else {
            Seq::empty()
        }
    }

    /// What a reader sees of the roster: the delegates' and the
    /// entities' directory entries for a delegate caller, nothing for
    /// anyone else.
    pub open spec fn roster(self, caller: Seq<u8>) -> (Seq<UserDetailsView>, Seq<UserDetailsView>) {
        if self.is_delegate(caller) {
            (entries_of(self.delegates, self.directory), entries_of(self.entities, self.directory))
        } else {
            (Seq::empty(), Seq::empty())
        }
    }
}

/// The byte strings of a sequence of accounts.
pub open spec fn account_views(s: Seq<AccountId>) -> Seq<Seq<u8>> {
    s.map_values(|a: AccountId| a@)
}

/// The mathematical values of a sequence of reports.
pub open spec fn report_views(s: Seq<Report>) -> Seq<ReportView> {
    s.map_values(|r: Report| r@)
}

/// The mathematical values of a sequence of directory entries.
pub open spec fn details_views(s: Seq<UserDetails>) -> Seq<UserDetailsView> {
    s.map_values(|u: UserDetails| u@)
}

/// The directory entries of the listed accounts.
pub open spec fn entries_of(accts: Seq<Seq<u8>>, dir: Map<Seq<u8>, UserDetailsView>) -> Seq<
    UserDetailsView,
> {
    accts.map_values(|a: Seq<u8>| dir[a])
}

/// The cooldown table as key-value pairs.
pub open spec fn timer_pairs(s: Seq<(AccountId, u64)>) -> Seq<(Seq<u8>, u64)> {
    s.map_values(|p: (AccountId, u64)| (p.0@, p.1))
}

/// The directory as key-value pairs, keyed by the entry's own account.
pub open spec fn dir_pairs(s: Seq<UserDetails>) -> Seq<(Seq<u8>, UserDetailsView)> {
    s.map_values(|u: UserDetails| (u.user_acct@, u@))
}

/// The whole contract state. The vectors are association tables with
/// unique keys; `view` abstracts them to the maps and sequences of
/// `StorageView`.
pub struct ContractStorage {
    /// Last accepted submission time, one entry per account that ever
    /// reported.
    pub account_timer: Vec<(AccountId, u64)>,
    /// Retained reports, oldest first, never more than `MAX_REPORTS`.
    pub reports: Vec<Report>,
    /// The root legal authority, once bootstrapped.
    pub geode_legal: Option<AccountId>,
    /// Delegate accounts, each at most once.
    pub delegates: Vec<AccountId>,
    /// Entity accounts, each at most once.
    pub entities: Vec<AccountId>,
    /// Directory entries of privileged accounts, keyed by account.
    pub directory: Vec<UserDetails>,
}

impl View for ContractStorage {
    type V = StorageView;

    open spec fn view(&self) -> StorageView {
        StorageView {
            timers: assoc_map(timer_pairs(self.account_timer@)),
            reports: report_views(self.reports@),
            root: match self.geode_legal {
                Some(a) => Some(a@),
                None => None,
            },
            delegates: account_views(self.delegates@),
            entities: account_views(self.entities@),
            directory: assoc_map(dir_pairs(self.directory@)),
        }
    }
}

impl ContractStorage {
    /// Well-formedness: the association tables keep their keys unique
    /// and the model satisfies its invariant. `new` establishes it and
    /// every operation preserves it.
    pub open spec fn wf(self) -> bool {
        &&& assoc_keys_unique(timer_pairs(self.account_timer@))
        &&& assoc_keys_unique(dir_pairs(self.directory@))
        &&& self@.inv()
    }

    /// A fresh, empty contract state.
    pub fn new() -> (r: ContractStorage)
        ensures
            r@ == StorageView::initial(),
            r.wf(),
    {
        let r = ContractStorage {
            account_timer: Vec::new(),
            reports: Vec::new(),
            geode_legal: None,
            delegates: Vec::new(),
            entities: Vec::new(),
            directory: Vec::new(),
        };
        proof {
            assert(r@ =~= StorageView::initial());
        }
        r
    }

    /// Files a report from `caller` against `accused_account` at logical
    /// time `now`. Rejected while the submitter's cooldown runs, or when
    /// a payload field is too large to persist; a rejected call changes
    /// nothing. On success the report is stored (evicting the oldest
    /// when the ledger is full), the submitter's cooldown restarts, and
    /// the returned notification payload carries the new report's
    /// deterministic identifier.
    pub fn make_a_report(
        &mut self,
        caller: AccountId,
        now: u64,
        your_legal_name: Vec<u8>,
        your_phone: Vec<u8>,
        accused_account: AccountId,
        geode_apps_where_this_happened: Vec<u8>,
        activity_id_list: Vec<u8>,
        crime_category: Vec<u8>,
        crime_description: Vec<u8>,
        accused_user_location: Vec<u8>,
    ) -> (r: Result<NewSAReport, Error>)
        requires
            old(self).wf(),
        ensures
            final(self).wf(),
            final(self)@ == old(self)@.submit(
                caller@,
                now,
                submission_view(
                    your_legal_name@,
                    your_phone@,
                    accused_account@,
                    geode_apps_where_this_happened@,
                    activity_id_list@,
                    crime_category@,
                    crime_description@,
                    accused_user_location@,
                ),
            ).0,
            event_result_view(r) == old(self)@.submit(
                caller@,
                now,
                submission_view(
                    your_legal_name@,
                    your_phone@,
                    accused_account@,
                    geode_apps_where_this_happened@,
                    activity_id_list@,
                    crime_category@,
                    crime_description@,
                    accused_user_location@,
                ),
            ).1,
    {
        let ghost sub = submission_view(
            your_legal_name@,
            your_phone@,
            accused_account@,
            geode_apps_where_this_happened@,
            activity_id_list@,
            crime_category@,
            crime_description@,
            accused_user_location@,
        );
        match timer_of(&self.account_timer, &caller) {
            Some(t) => {
                if now < t || now - t < COOLDOWN_MS {
                    return Err(Error::CannotReportAgainWithin24Hours);
                }
            },
            None => {},
        }
        proof {
            assert(!old(self)@.too_soon(caller@, now));
        }
        if check_field(&your_legal_name) || check_field(&your_phone) || check_field(
            &geode_apps_where_this_happened,
        ) || check_field(&activity_id_list) || check_field(&crime_category) || check_field(
            &crime_description,
        ) || check_field(&accused_user_location) {
            return Err(Error::DataTooLarge);
        }
        let report_id = compute_report_id(&caller, &accused_account, &activity_id_list, now);
        let event = NewSAReport {
            report_id,
            reporter_account: caller,
            accused_account,
            geode_apps: clone_bytes(&geode_apps_where_this_happened),
            activity_id_list: clone_bytes(&activity_id_list),
            crime_category: clone_bytes(&crime_category),
            accused_location: clone_bytes(&accused_user_location),
            timestamp: now,
        };
        let report = Report {
            report_id,
            reporter_account: caller,
            reporter_legal_name: your_legal_name,
            reporter_phone: your_phone,
            accused_account,
            geode_apps: geode_apps_where_this_happened,
            activity_id_list,
            crime_category,
            crime_description,
            accused_location: accused_user_location,
            timestamp: now,
        };
        if self.reports.len() >= MAX_REPORTS {
            let _ = self.reports.remove(0);
        }
        self.reports.push(report);
        set_timer(&mut self.account_timer, &caller, now);
        proof {
            let m0 = old(self)@;
            let rv = new_report_view(caller@, now, sub);
            assert(report@ =~= rv);
            let kept = if m0.reports.len() < MAX_REPORTS as int {
                m0.reports
            } else {
                m0.reports.skip(1)
            };
            assert(report_views(self.reports@) =~= kept.push(rv));
            assert(self@ =~= m0.submit(caller@, now, sub).0);
            assert(event@ =~= event_view(rv));
            assert(self@.inv());
        }
        Ok(event)
    }

    /// Sets or rotates the root legal authority. Before the first
    /// bootstrap any caller may; afterwards only the current root.
    /// The new root gains a delegate seat and its directory entry is
    /// written from the supplied profile.
    pub fn set_geode_legal_root(
        &mut self,
        caller: AccountId,
        new_geode_legal_root: AccountId,
        name: Vec<u8>,
        organization: Vec<u8>,
        phone: Vec<u8>,
        email: Vec<u8>,
    ) -> (r: Result<(), Error>)
        requires
            old(self).wf(),
        ensures
            final(self).wf(),
            final(self)@ == old(self)@.bootstrap_root(
                caller@,
                new_geode_legal_root@,
                profile_view(name@, organization@, phone@, email@),
            ).0,
            r == old(self)@.bootstrap_root(
                caller@,
                new_geode_legal_root@,
                profile_view(name@, organization@, phone@, email@),
            ).1,
    {
        let allowed = match &self.geode_legal {
            None => true,
            Some(r0) => r0.eq(&caller),
        };
        if !allowed {
            return Err(Error::GenericError);
        }
        if check_field(&name) || check_field(&organization) || check_field(&phone) || check_field(
            &email,
        ) {
            return Err(Error::DataTooLarge);
        }
        let ghost m0 = self@;
        self.geode_legal = Some(new_geode_legal_root);
        if !contains_account(&self.delegates, &new_geode_legal_root) {
            let ghost d0 = account_views(self.delegates@);
            self.delegates.push(new_geode_legal_root);
            proof {
                assert(account_views(self.delegates@) =~= d0.push(new_geode_legal_root@));
            }
        }
        dir_put(
            &mut self.directory,
            UserDetails { user_acct: new_geode_legal_root, name, organization, phone, email },
        );
        proof {
            let p = profile_view(name@, organization@, phone@, email@);
            let a = new_geode_legal_root@;
            assert(self@ =~= m0.bootstrap_root(caller@, a, p).0);
            lemma_grant_role_inv(m0.delegates, m0.directory, a, details_of(a, p));
            if !m0.delegates.contains(a) {
                assert(self@.delegates[m0.delegates.len() as int] == a);
            }
            assert(forall|i: int|
                0 <= i < self@.entities.len() ==> self@.directory.dom().contains(
                    #[trigger] self@.entities[i],
                ));
        }
        Ok(())
    }

    /// Appoints a delegate; the root alone may. Re-adding an existing
    /// delegate only refreshes its directory entry.
    pub fn add_geode_legal_delegate(
        &mut self,
        caller: AccountId,
        add: AccountId,
        name: Vec<u8>,
        organization: Vec<u8>,
        phone: Vec<u8>,
        email: Vec<u8>,
    ) -> (r: Result<(), Error>)
        requires
            old(self).wf(),
        ensures
            final(self).wf(),
            final(self)@ == old(self)@.add_delegate(
                caller@,
                add@,
                profile_view(name@, organization@, phone@, email@),
            ).0,
            r == old(self)@.add_delegate(
                caller@,
                add@,
                profile_view(name@, organization@, phone@, email@),
            ).1,
    {
        let allowed = match &self.geode_legal {
            None => false,
            Some(r0) => r0.eq(&caller),
        };
        if !allowed {
            return Err(Error::GenericError);
        }
        if check_field(&name) || check_field(&organization) || check_field(&phone) || check_field(
            &email,
        ) {
            return Err(Error::DataTooLarge);
        }
        let ghost m0 = self@;
        if !contains_account(&self.delegates, &add) {
            let ghost d0 = account_views(self.delegates@);
            self.delegates.push(add);
            proof {
                assert(account_views(self.delegates@) =~= d0.push(add@));
            }
        }
        dir_put(
            &mut self.directory,
            UserDetails { user_acct: add, name, organization, phone, email },
        );
        proof {
            let p = profile_view(name@, organization@, phone@, email@);
            assert(self@ =~= m0.add_delegate(caller@, add@, p).0);
            lemma_grant_role_inv(m0.delegates, m0.directory, add@, details_of(add@, p));
            if !m0.delegates.contains(add@) {
                assert(self@.delegates[m0.delegates.len() as int] == add@);
            }
            if m0.delegates.contains(caller@) {
                let j = choose|j: int| 0 <= j < m0.delegates.len() && m0.delegates[j] == caller@;
                assert(self@.delegates[j] == caller@);
            }
            assert(forall|i: int|
                0 <= i < self@.entities.len() ==> self@.directory.dom().contains(
                    #[trigger] self@.entities[i],
                ));
        }
        Ok(())
    }

    /// Dismisses a delegate; the root alone may. An absent account is a
    /// no-op, the root keeps its own delegate seat, and the account's
    /// directory entry is kept while it still holds the entity role.
    pub fn remove_geode_legal_delegate(&mut self, caller: AccountId, remove: AccountId) -> (r:
        Result<(), Error>)
        requires
            old(self).wf(),
        ensures
            final(self).wf(),
            final(self)@ == old(self)@.remove_delegate(caller@, remove@).0,
            r == old(self)@.remove_delegate(caller@, remove@).1,
    {
        let allowed = match &self.geode_legal {
            None => false,
            Some(r0) => r0.eq(&caller),
        };
        if !allowed {
            return Err(Error::GenericError);
        }
        let target_is_root = match &self.geode_legal {
            None => false,
            Some(r0) => r0.eq(&remove),
        };
        if target_is_root {
            return Ok(());
        }
        let ghost m0 = self@;
        remove_account(&mut self.delegates, &remove);
        if !contains_account(&self.entities, &remove) {
            dir_remove(&mut self.directory, &remove);
        }
        proof {
            assert(self@ =~= m0.remove_delegate(caller@, remove@).0);
            assert forall|i: int| 0 <= i < self@.delegates.len() implies self@.directory.dom()
                .contains(#[trigger] self@.delegates[i]) by {
                assert(self@.delegates.contains(self@.delegates[i]));
                assert(m0.delegates.contains(self@.delegates[i]));
                let j = choose|j: int|
                    0 <= j < m0.delegates.len() && m0.delegates[j] == self@.delegates[i];
                if self@.delegates[i] == remove@ {
                    assert(false);
                }
            }
            assert forall|i: int| 0 <= i < self@.entities.len() implies self@.directory.dom()
                .contains(#[trigger] self@.entities[i]) by {
                if !m0.entities.contains(remove@) {
                    assert(self@.entities.contains(self@.entities[i]));
                    if self@.entities[i] == remove@ {
                        assert(false);
                    }
                }
            }
            if m0.delegates.contains(caller@) {
                assert(caller@ != remove@);
                assert(self@.delegates.contains(caller@));
            }
        }
        Ok(())
    }

    /// Grants a law-enforcement entity read access; any delegate may.
    /// Re-adding an existing entity only refreshes its directory entry.
    pub fn add_law_enforcement_access(
        &mut self,
        caller: AccountId,
        add: AccountId,
        name: Vec<u8>,
        organization: Vec<u8>,
        phone: Vec<u8>,
        email: Vec<u8>,
    ) -> (r: Result<(), Error>)
        requires
            old(self).wf(),
        ensures
            final(self).wf(),
            final(self)@ == old(self)@.add_entity(
                caller@,
                add@,
                profile_view(name@, organization@, phone@, email@),
            ).0,
            r == old(self)@.add_entity(
                caller@,
                add@,
                profile_view(name@, organization@, phone@, email@),
            ).1,
    {
        if !contains_account(&self.delegates, &caller) {
            return Err(Error::GenericError);
        }
        if check_field(&name) || check_field(&organization) || check_field(&phone) || check_field(
            &email,
        ) {
            return Err(Error::DataTooLarge);
        }
        let ghost m0 = self@;
        if !contains_account(&self.entities, &add) {
            let ghost e0 = account_views(self.entities@);
            self.entities.push(add);
            proof {
                assert(account_views(self.entities@) =~= e0.push(add@));
            }
        }
        dir_put(
            &mut self.directory,
            UserDetails { user_acct: add, name, organization, phone, email },
        );
        proof {
            let p = profile_view(name@, organization@, phone@, email@);
            assert(self@ =~= m0.add_entity(caller@, add@, p).0);
            lemma_grant_role_inv(m0.entities, m0.directory, add@, details_of(add@, p));
            lemma_grant_role_inv(m0.delegates, m0.directory, add@, details_of(add@, p));
            if !m0.entities.contains(add@) {
                assert(self@.entities[m0.entities.len() as int] == add@);
            }
        }
        Ok(())
    }

    /// Revokes a law-enforcement entity's access; any delegate may. An
    /// absent account is a no-op, and the account's directory entry is
    /// kept while it still holds the delegate role.
    pub fn remove_law_enforcement_access(&mut self, caller: AccountId, remove: AccountId) -> (r:
        Result<(), Error>)
        requires
            old(self).wf(),
        ensures
            final(self).wf(),
            final(self)@ == old(self)@.remove_entity(caller@, remove@).0,
            r == old(self)@.remove_entity(caller@, remove@).1,
    {
        if !contains_account(&self.delegates, &caller) {
            return Err(Error::GenericError);
        }
        let ghost m0 = self@;
        remove_account(&mut self.entities, &remove);
        if !contains_account(&self.delegates, &remove) {
            dir_remove(&mut self.directory, &remove);
        }
        proof {
            assert(self@ =~= m0.remove_entity(caller@, remove@).0);
            assert forall|i: int| 0 <= i < self@.entities.len() implies self@.directory.dom()
                .contains(#[trigger] self@.entities[i]) by {
                assert(self@.entities.contains(self@.entities[i]));
                assert(m0.entities.contains(self@.entities[i]));
                if self@.entities[i] == remove@ {
                    assert(false);
                }
            }
            assert forall|i: int| 0 <= i < self@.delegates.len() implies self@.directory.dom()
                .contains(#[trigger] self@.delegates[i]) by {
                if !m0.delegates.contains(remove@) {
                    assert(self@.delegates.contains(self@.delegates[i]));
                    if self@.delegates[i] == remove@ {
                        assert(false);
                    }
                }
            }
        }
        Ok(())
    }

    /// Hands back every retained report, oldest first, to a delegate or
    /// an entity; any other caller receives an empty list rather than an
    /// error.
    pub fn view_all_reports(&self, caller: AccountId) -> (r: Vec<Report>)
        requires
            self.wf(),
        ensures
            report_views(r@) == self@.reports_visible(caller@),
    {
        let mut allreports: Vec<Report> = Vec::new();
        let allowed = contains_account(&self.entities, &caller) || contains_account(
            &self.delegates,
            &caller,
        );
        if !allowed {
            proof {
                assert(report_views(allreports@) =~= self@.reports_visible(caller@));
            }
            return allreports;
        }
        let n = self.reports.len();
        let mut i: usize = 0;
        while i < n
            invariant
                n == self.reports.len(),
                i <= n,
                allreports@.len() == i,
                forall|j: int|
                    0 <= j < i ==> (#[trigger] allreports@[j])@ == self.reports@[j]@,
            decreases n - i,
        {
            allreports.push(self.reports[i].duplicate());
            i = i + 1;
        }
        proof {
            assert(report_views(allreports@) =~= self@.reports_visible(caller@));
        }
        allreports
    }

    /// Hands back the delegates' and the entities' directory entries, in
    /// role-grant order, to a delegate; any other caller receives two
    /// empty lists rather than an error.
    pub fn view_allowed_delegates_and_entities(&self, caller: AccountId) -> (r: ViewAllowed)
        requires
            self.wf(),
        ensures
            details_views(r.delegates@) == self@.roster(caller@).0,
            details_views(r.entities@) == self@.roster(caller@).1,
    {
        let mut all_delegates: Vec<UserDetails> = Vec::new();
        let mut all_entities: Vec<UserDetails> = Vec::new();
        if !contains_account(&self.delegates, &caller) {
            proof {
                assert(details_views(all_delegates@) =~= self@.roster(caller@).0);
                assert(details_views(all_entities@) =~= self@.roster(caller@).1);
            }
            return ViewAllowed { delegates: all_delegates, entities: all_entities };
        }
        let nd = self.delegates.len();
        let mut i: usize = 0;
        while i < nd
            invariant
                self.wf(),
                nd == self.delegates.len(),
                i <= nd,
                all_delegates@.len() == i,
                forall|j: int|
                    0 <= j < i ==> (#[trigger] all_delegates@[j])@ == self@.directory[self@.delegates[j]],
            decreases nd - i,
        {
            proof {
                assert(self@.delegates[i as int] == self.delegates@[i as int]@);
            }
            match dir_get(&self.directory, &self.delegates[i]) {
                Some(u) => {
                    all_delegates.push(u.duplicate());
                },
                None => {
                    proof {
                        assert(false);
                    }
                },
            }
            i = i + 1;
        }
        let ne = self.entities.len();
        let mut k: usize = 0;
        while k < ne
            invariant
                self.wf(),
                ne == self.entities.len(),
                k <= ne,
                all_entities@.len() == k,
                forall|j: int|
                    0 <= j < k ==> (#[trigger] all_entities@[j])@ == self@.directory[self@.entities[j]],
            decreases ne - k,
        {
            proof {
                assert(self@.entities[k as int] == self.entities@[k as int]@);
            }
            match dir_get(&self.directory, &self.entities[k]) {
                Some(u) => {
                    all_entities.push(u.duplicate());
                },
                None => {
                    proof {
                        assert(false);
                    }
                },
            }
            k = k + 1;
        }
        proof {
            assert(details_views(all_delegates@) =~= self@.roster(caller@).0);
            assert(details_views(all_entities@) =~= self@.roster(caller@).1);
        }
        ViewAllowed { delegates: all_delegates, entities: all_entities }
    }

    /// True when the account currently holds the delegate role.
    pub fn is_delegate(&self, a: &AccountId) -> (r: bool)
        ensures
            r == self@.is_delegate(a@),
    {
        contains_account(&self.delegates, a)
    }

    /// True when the account currently holds the entity role.
    pub fn is_entity(&self, a: &AccountId) -> (r: bool)
        ensures
            r == self@.is_entity(a@),
    {
        contains_account(&self.entities, a)
    }

    /// Decides well-formedness at run time, for callers that assemble a
    /// state by hand rather than through `new` and the operations above.
    pub fn is_well_formed(&self) -> (r: bool)
        ensures
            r <==> self.wf(),
    {
        if !timer_keys_unique_exec(&self.account_timer) {
            return false;
        }
        if !dir_keys_unique_exec(&self.directory) {
            return false;
        }
        if !accounts_distinct_exec(&self.delegates) {
            return false;
        }
        if !accounts_distinct_exec(&self.entities) {
            return false;
        }
        if self.reports.len() > MAX_REPORTS {
            return false;
        }
        let root_ok = match &self.geode_legal {
            None => true,
            Some(r0) => contains_account(&self.delegates, r0),
        };
        if !root_ok {
            return false;
        }
        let nd = self.delegates.len();
        let mut i: usize = 0;
        while i < nd
            invariant
                nd == self.delegates.len(),
                i <= nd,
                assoc_keys_unique(dir_pairs(self.directory@)),
                forall|j: int|
                    0 <= j < i ==> assoc_map(dir_pairs(self.directory@)).dom().contains(
                        #[trigger] account_views(self.delegates@)[j],
                    ),
            decreases nd - i,
        {
            proof {
                assert(account_views(self.delegates@)[i as int] == self.delegates@[i as int]@);
            }
            match dir_get(&self.directory, &self.delegates[i]) {
                Some(_) => {},
                None => {
                    return false;
                },
            }
            i = i + 1;
        }
        let ne = self.entities.len();
        let mut k: usize = 0;
        while k < ne
            invariant
                ne == self.entities.len(),
                k <= ne,
                assoc_keys_unique(dir_pairs(self.directory@)),
                forall|j: int|
                    0 <= j < k ==> assoc_map(dir_pairs(self.directory@)).dom().contains(
                        #[trigger] account_views(self.entities@)[j],
                    ),
            decreases ne - k,
        {
            proof {
                assert(account_views(self.entities@)[k as int] == self.entities@[k as int]@);
            }
            match dir_get(&self.directory, &self.entities[k]) {
                Some(_) => {},
                None => {
                    return false;
                },
            }
            k = k + 1;
        }
        true
    }
}

/// True when no two cooldown entries share an account.
fn timer_keys_unique_exec(v: &Vec<(AccountId, u64)>) -> (r: bool)
    ensures
        r <==> assoc_keys_unique(timer_pairs(v@)),
{
    let n = v.len();
    let mut i: usize = 0;
    while i < n
        invariant
            n == v.len(),
            i <= n,
            forall|x: int, y: int|
                0 <= x < y < n && x < i ==> (#[trigger] timer_pairs(v@)[x]).0 != (
                #[trigger] timer_pairs(v@)[y]).0,
        decreases n - i,
    {
        let mut j: usize = i + 1;
        while j < n
            invariant
                n == v.len(),
                i < j <= n,
                forall|y: int|
                    i < y < j ==> timer_pairs(v@)[i as int].0 != (#[trigger] timer_pairs(v@)[y]).0,
            decreases n - j,
        {
            if v[i].0.eq(&v[j].0) {
                proof {
                    assert(timer_pairs(v@)[i as int].0 == timer_pairs(v@)[j as int].0);
                }
                return false;
            }
            j = j + 1;
        }
        i = i + 1;
    }
    true
}

/// True when no two directory entries share an account.
fn dir_keys_unique_exec(v: &Vec<UserDetails>) -> (r: bool)
    ensures
        r <==> assoc_keys_unique(dir_pairs(v@)),
{
    let n = v.len();
    let mut i: usize = 0;
    while i < n
        invariant
            n == v.len(),
            i <= n,
            forall|x: int, y: int|
                0 <= x < y < n && x < i ==> (#[trigger] dir_pairs(v@)[x]).0 != (
                #[trigger] dir_pairs(v@)[y]).0,
        decreases n - i,
    {
        let mut j: usize = i + 1;
        while j < n
            invariant
                n == v.len(),
                i < j <= n,
                forall|y: int|
                    i < y < j ==> dir_pairs(v@)[i as int].0 != (#[trigger] dir_pairs(v@)[y]).0,
            decreases n - j,
        {
            if v[i].user_acct.eq(&v[j].user_acct) {
                proof {
                    assert(dir_pairs(v@)[i as int].0 == dir_pairs(v@)[j as int].0);
                }
                return false;
            }
            j = j + 1;
        }
        i = i + 1;
    }
    true
}

/// True when no account occurs twice in the list.
fn accounts_distinct_exec(v: &Vec<AccountId>) -> (r: bool)
    ensures
        r <==> distinct_seq(account_views(v@)),
{
    let n = v.len();
    let mut i: usize = 0;
    while i < n
        invariant
            n == v.len(),
            i <= n,
            forall|x: int, y: int|
                0 <= x < y < n && x < i ==> account_views(v@)[x] != account_views(v@)[y],
        decreases n - i,
    {
        let mut j: usize = i + 1;
        while j < n
            invariant
                n == v.len(),
                i < j <= n,
                forall|y: int| i < y < j ==> account_views(v@)[i as int] != account_views(v@)[y],
            decreases n - j,
        {
            if v[i].eq(&v[j]) {
                proof {
                    assert(account_views(v@)[i as int] == account_views(v@)[j as int]);
                }
                return false;
            }
            j = j + 1;
        }
        i = i + 1;
    }
    true
}

/// Granting a role to `a` and writing its directory entry keeps a role
/// list distinct and covered by the directory.
proof fn lemma_grant_role_inv(
    roles: Seq<Seq<u8>>,
    dir: Map<Seq<u8>, UserDetailsView>,
    a: Seq<u8>,
    d: UserDetailsView,
)
    requires
        distinct_seq(roles),
        forall|i: int| 0 <= i < roles.len() ==> dir.dom().contains(#[trigger] roles[i]),
    ensures
        !roles.contains(a) ==> distinct_seq(roles.push(a)),
        forall|i: int|
            0 <= i < roles.len() ==> dir.insert(a, d).dom().contains(#[trigger] roles[i]),
        forall|i: int|
            0 <= i < roles.push(a).len() ==> dir.insert(a, d).dom().contains(
                #[trigger] roles.push(a)[i],
            ),
{
    if !roles.contains(a) {
        let r1 = roles.push(a);
        assert forall|x: int, y: int| 0 <= x < y < r1.len() implies r1[x] != r1[y] by {
            if y < roles.len() {
                assert(roles[x] != roles[y]);
            } else {
                assert(r1[y] == a);
                assert(r1[x] == roles[x]);
                assert(!roles.contains(a));
            }
        }
    }
}

/// Looks up an account's last accepted submission time.
fn timer_of(timers: &Vec<(AccountId, u64)>, a: &AccountId) -> (r: Option<u64>)
    requires
        assoc_keys_unique(timer_pairs(timers@)),
    ensures
        match r {
            Some(t) => assoc_map(timer_pairs(timers@)).dom().contains(a@) && assoc_map(
                timer_pairs(timers@),
            )[a@] == t,
            None => !assoc_map(timer_pairs(timers@)).dom().contains(a@),
        },
{
    let n = timers.len();
    let mut i: usize = 0;
    while i < n
        invariant
            n == timers.len(),
            i <= n,
            assoc_keys_unique(timer_pairs(timers@)),
            forall|j: int| 0 <= j < i ==> (#[trigger] timers@[j]).0@ != a@,
        decreases n - i,
    {
        if timers[i].0.eq(a) {
            proof {
                lemma_assoc_map_entries(timer_pairs(timers@));
                assert(timer_pairs(timers@)[i as int] == (timers@[i as int].0@, timers@[i as int].1));
            }
            return Some(timers[i].1);
        }
        i = i + 1;
    }
    proof {
        lemma_assoc_map_entries(timer_pairs(timers@));
        if assoc_map(timer_pairs(timers@)).dom().contains(a@) {
            let j = choose|j: int|
                0 <= j < timer_pairs(timers@).len() && (#[trigger] timer_pairs(timers@)[j]).0
                    == a@;
            assert((timers@[j]).0@ == a@);
        }
    }
    None
}

/// Records an account's last accepted submission time.
fn set_timer(timers: &mut Vec<(AccountId, u64)>, a: &AccountId, t: u64)
    requires
        assoc_keys_unique(timer_pairs(old(timers)@)),
    ensures
        assoc_keys_unique(timer_pairs(final(timers)@)),
        assoc_map(timer_pairs(final(timers)@)) == assoc_map(timer_pairs(old(timers)@)).insert(
            a@,
            t,
        ),
{
    let n = timers.len();
    let mut i: usize = 0;
    while i < n
        invariant
            n == timers.len(),
            i <= n,
            timers == old(timers),
            assoc_keys_unique(timer_pairs(timers@)),
            forall|j: int| 0 <= j < i ==> (#[trigger] timers@[j]).0@ != a@,
        decreases n - i,
    {
        if timers[i].0.eq(a) {
            let ghost s = timer_pairs(timers@);
            timers.set(i, (*a, t));
            proof {
                assert(timer_pairs(timers@) =~= s.update(i as int, (a@, t)));
                lemma_assoc_map_update(s, i as int, (a@, t));
            }
            return ;
        }
        i = i + 1;
    }
    let ghost s = timer_pairs(timers@);
    timers.push((*a, t));
    proof {
        assert(timer_pairs(timers@) =~= s.push((a@, t)));
        lemma_assoc_map_push(s, (a@, t));
    }
}

/// True when the account occurs in the list.
fn contains_account(v: &Vec<AccountId>, a: &AccountId) -> (r: bool)
    ensures
        r <==> account_views(v@).contains(a@),
{
    let n = v.len();
    let mut i: usize = 0;
    while i < n
        invariant
            n == v.len(),
            i <= n,
            forall|j: int| 0 <= j < i ==> (#[trigger] v@[j])@ != a@,
        decreases n - i,
    {
        if v[i].eq(a) {
            proof {
                assert(account_views(v@)[i as int] == a@);
            }
            return true;
        }
        i = i + 1;
    }
    proof {
        if account_views(v@).contains(a@) {
            let j = choose|j: int|
                0 <= j < account_views(v@).len() && account_views(v@)[j] == a@;
            assert((v@[j])@ == a@);
        }
    }
    false
}

/// Looks up an account's directory entry.
fn dir_get<'a>(dir: &'a Vec<UserDetails>, a: &AccountId) -> (r: Option<&'a UserDetails>)
    requires
        assoc_keys_unique(dir_pairs(dir@)),
    ensures
        match r {
            Some(u) => assoc_map(dir_pairs(dir@)).dom().contains(a@) && assoc_map(
                dir_pairs(dir@),
            )[a@] == u@,
            None => !assoc_map(dir_pairs(dir@)).dom().contains(a@),
        },
{
    let n = dir.len();
    let mut i: usize = 0;
    while i < n
        invariant
            n == dir.len(),
            i <= n,
            assoc_keys_unique(dir_pairs(dir@)),
            forall|j: int| 0 <= j < i ==> (#[trigger] dir@[j]).user_acct@ != a@,
        decreases n - i,
    {
        if dir[i].user_acct.eq(a) {
            proof {
                lemma_assoc_map_entries(dir_pairs(dir@));
                assert(dir_pairs(dir@)[i as int] == (dir@[i as int].user_acct@, dir@[i as int]@));
            }
            return Some(&dir[i]);
        }
        i = i + 1;
    }
    proof {
        lemma_assoc_map_entries(dir_pairs(dir@));
        if assoc_map(dir_pairs(dir@)).dom().contains(a@) {
            let j = choose|j: int|
                0 <= j < dir_pairs(dir@).len() && (#[trigger] dir_pairs(dir@)[j]).0 == a@;
            assert(dir@[j].user_acct@ == a@);
        }
    }
    None
}

/// Inserts or replaces the directory entry for `u`'s account.
fn dir_put(dir: &mut Vec<UserDetails>, u: UserDetails)
    requires
        assoc_keys_unique(dir_pairs(old(dir)@)),
    ensures
        assoc_keys_unique(dir_pairs(final(dir)@)),
        assoc_map(dir_pairs(final(dir)@)) == assoc_map(dir_pairs(old(dir)@)).insert(
            u.user_acct@,
            u@,
        ),
{
    let n = dir.len();
    let mut i: usize = 0;
    while i < n
        invariant
            n == dir.len(),
            i <= n,
            dir == old(dir),
            assoc_keys_unique(dir_pairs(dir@)),
            forall|j: int| 0 <= j < i ==> (#[trigger] dir@[j]).user_acct@ != u.user_acct@,
        decreases n - i,
    {
        if dir[i].user_acct.eq(&u.user_acct) {
            let ghost s = dir_pairs(dir@);
            let ghost p = (u.user_acct@, u@);
            dir.set(i, u);
            proof {
                assert(dir_pairs(dir@) =~= s.update(i as int, p));
                lemma_assoc_map_update(s, i as int, p);
            }
            return ;
        }
        i = i + 1;
    }
    let ghost s = dir_pairs(dir@);
    let ghost p = (u.user_acct@, u@);
    dir.push(u);
    proof {
        assert(dir_pairs(dir@) =~= s.push(p));
        lemma_assoc_map_push(s, p);
    }
}

/// Deletes an account's directory entry, if it has one.
fn dir_remove(dir: &mut Vec<UserDetails>, a: &AccountId)
    requires
        assoc_keys_unique(dir_pairs(old(dir)@)),
    ensures
        assoc_keys_unique(dir_pairs(final(dir)@)),
        assoc_map(dir_pairs(final(dir)@)) == assoc_map(dir_pairs(old(dir)@)).remove(a@),
{
    let n = dir.len();
    let mut i: usize = 0;
    while i < n
        invariant
            n == dir.len(),
            i <= n,
            dir == old(dir),
            assoc_keys_unique(dir_pairs(dir@)),
            forall|j: int| 0 <= j < i ==> (#[trigger] dir@[j]).user_acct@ != a@,
        decreases n - i,
    {
        if dir[i].user_acct.eq(a) {
            let ghost s = dir_pairs(dir@);
            let _ = dir.remove(i);
            proof {
                assert(dir_pairs(dir@) =~= s.remove(i as int));
                lemma_assoc_map_remove(s, i as int);
            }
            return ;
        }
        i = i + 1;
    }
    proof {
        lemma_assoc_map_entries(dir_pairs(dir@));
        if assoc_map(dir_pairs(dir@)).dom().contains(a@) {
            let j = choose|j: int|
                0 <= j < dir_pairs(dir@).len() && (#[trigger] dir_pairs(dir@)[j]).0 == a@;
            assert(dir@[j].user_acct@ == a@);
        }
        assert(assoc_map(dir_pairs(dir@)).remove(a@) =~= assoc_map(dir_pairs(dir@)));
    }
}

/// Deletes the first occurrence of an account from a role list.
fn remove_account(v: &mut Vec<AccountId>, a: &AccountId)
    ensures
        account_views(final(v)@) == remove_first(account_views(old(v)@), a@),
        forall|x: Seq<u8>|
            #[trigger] account_views(final(v)@).contains(x) ==> account_views(
                old(v)@,
            ).contains(x),
        distinct_seq(account_views(old(v)@)) ==> distinct_seq(account_views(final(v)@))
            && !account_views(final(v)@).contains(a@),
        forall|x: Seq<u8>|
            x != a@ && #[trigger] account_views(old(v)@).contains(x) ==> account_views(
                final(v)@,
            ).contains(x),
{
    let n = v.len();
    let mut i: usize = 0;
    while i < n
        invariant
            n == v.len(),
            i <= n,
            v == old(v),
            forall|j: int| 0 <= j < i ==> (#[trigger] v@[j])@ != a@,
        decreases n - i,
    {
        if v[i].eq(a) {
            let ghost s = account_views(v@);
            let _ = v.remove(i);
            proof {
                assert(s[i as int] == a@);
                assert forall|j: int| 0 <= j < i implies s[j] != s[i as int] by {
                    assert(s[j] == (v@[j])@);
                }
                lemma_remove_first_at(s, i as int);
                assert(account_views(v@) =~= s.remove(i as int));
                let t = account_views(v@);
                assert forall|x: Seq<u8>| #[trigger] t.contains(x) implies s.contains(x) by {
                    let k = choose|k: int| 0 <= k < t.len() && t[k] == x;
                    if k < i {
                        assert(s[k] == x);
                    } else {
                        assert(s[k + 1] == x);
                    }
                }
                if distinct_seq(s) {
                    assert forall|x: int, y: int| 0 <= x < y < t.len() implies t[x] != t[y] by {
                        let sx: int = if x < i { x } else { x + 1 };
                        let sy: int = if y < i { y } else { y + 1 };
                        assert(t[x] == s[sx] && t[y] == s[sy]);
                    }
                    if t.contains(a@) {
                        let k = choose|k: int| 0 <= k < t.len() && t[k] == a@;
                        let sk: int = if k < i { k } else { k + 1 };
                        assert(s[sk] == a@ && sk != i);
                    }
                }
                assert forall|x: Seq<u8>| x != a@ && #[trigger] s.contains(x) implies t.contains(
                    x,
                ) by {
                    let k = choose|k: int| 0 <= k < s.len() && s[k] == x;
                    assert(k != i);
                    if k < i {
                        assert(t[k] == x);
                    } else {
                        assert(t[k - 1] == x);
                    }
                }
            }
            return ;
        }
        i = i + 1;
    }
    proof {
        let s = account_views(v@);
        assert(!s.contains(a@)) by {
            if s.contains(a@) {
                let j = choose|j: int| 0 <= j < s.len() && s[j] == a@;
                assert((v@[j])@ == a@);
            }
        }
        lemma_remove_first_absent(s, a@);
    }
}

} // verus!
