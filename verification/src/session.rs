//! The state of a signed-in session: when the AWS sign-in is checked again
//! and what repeated failures lead to, the search for resources to track,
//! and the views of the cached resources that the commands answer with.
use vstd::prelude::*;
use crate::external::{lowercase_of, to_lowercase};
use crate::resources::{Cluster, EcsService, RdsInstance};
use crate::shared::{arn_to_name, tracked_name, Env};
use crate::text::{chars_of, contains, has_infix, insert_unique, no_dups, position_of, strs_of};

verus! {

broadcast use vstd::string::group_string_axioms;

/// How long a successful sign-in check holds (five minutes, in
/// milliseconds).
pub const CHECK_AUTH_AFTER: i64 = 300000;

/// When the sign-in was last found valid, and how many checks failed in a
/// row since.
pub struct AuthTracker {
    pub last_auth_check: i64,
    pub no_of_failed_logins: i64,
}

/// The error every command answers with when the sign-in check fails.
pub open spec fn auth_failed_text() -> Seq<char> {
    "Authentication failed"@
}

/// The tracker after the checks of each environment gave `results` (the
/// checks stop at the first failure, so only the last can fail) at `now`,
/// with whether the window is asked to close.
pub open spec fn after_checks(t: AuthTracker, now: i64, results: Seq<bool>) -> (AuthTracker, bool) {
    if results.len() > 0 && !results.last() {
        (
            AuthTracker { last_auth_check: t.last_auth_check, no_of_failed_logins: (t.no_of_failed_logins + 1) as i64 },
            t.no_of_failed_logins + 1 == 2,
        )
    } else {
        (AuthTracker { last_auth_check: now, no_of_failed_logins: 0 }, false)
    }
}

impl AuthTracker {
    /// A session that was never checked.
    pub fn new() -> (r: AuthTracker)
        ensures
            r.last_auth_check == 0,
            r.no_of_failed_logins == 0,
    {
        AuthTracker { last_auth_check: 0, no_of_failed_logins: 0 }
    }

    /// Whether the sign-in is to be checked at `now`: more than five
    /// minutes after the last successful check.
    pub fn needs_check(&self, now: i64) -> (r: bool)
        requires
            i64::MIN <= now - self.last_auth_check <= i64::MAX,
        ensures
            r == (now - self.last_auth_check > CHECK_AUTH_AFTER),
    {
        now - self.last_auth_check > CHECK_AUTH_AFTER
    }

    /// Records the checks of the environments made at `now`: where one
    /// failed, the failure is counted, the command fails with
    /// `Authentication failed`, and the second failure in a row asks the
    /// window to close; where all passed, the failures are forgotten and the
    /// check holds from `now`.
    pub fn record_checks(&mut self, now: i64, results: &Vec<bool>) -> (r: (Result<(), String>, bool))
        requires
            forall|i: int| 0 <= i < results.len() - 1 ==> results@[i],
            old(self).no_of_failed_logins < i64::MAX,
        ensures
            (*final(self), r.1) == after_checks(*old(self), now, results@),
            r.0 is Ok <==> (results.len() == 0 || results@.last()),
            r.0 matches Err(m) ==> m@ == auth_failed_text(),
    {
        if results.len() > 0 && !results[results.len() - 1] {
            self.no_of_failed_logins = self.no_of_failed_logins + 1;
            let kill = self.no_of_failed_logins == 2;
            (Err("Authentication failed".to_string()), kill)
        } else {
            self.no_of_failed_logins = 0;
            self.last_auth_check = now;
            (Ok(()), false)
        }
    }

    /// Forgets the checks, so that the next command checks the sign-in
    /// again (on logout and when the cache is refreshed).
    pub fn reset(&mut self)
        ensures
            final(self).last_auth_check == 0,
            final(self).no_of_failed_logins == 0,
    {
        self.last_auth_check = 0;
        self.no_of_failed_logins = 0;
    }
}

/// A session that had no failed check closes its window on the second of
/// two failed checks in a row, and not on the first.
pub proof fn law_second_failure_closes(t: AuthTracker, n1: i64, n2: i64)
    requires
        t.no_of_failed_logins == 0,
    ensures
        !after_checks(t, n1, seq![false]).1,
        after_checks(after_checks(t, n1, seq![false]).0, n2, seq![false]).1,
{
}

/// A passing check forgets earlier failures, so a failure after it does
/// not close the window.
pub proof fn law_pass_resets_failures(t: AuthTracker, n1: i64, n2: i64)
    ensures
        after_checks(t, n1, seq![true]).0.no_of_failed_logins == 0,
        after_checks(t, n1, seq![true]).0.last_auth_check == n1,
        !after_checks(after_checks(t, n1, seq![true]).0, n2, seq![false]).1,
{
}

/// The names found by a search for `needle` among the resources `arns`:
/// the tracked name of each resource whose ARN holds the needle and which
/// is not among the `known` names yet.
pub open spec fn discovered(arns: Seq<Seq<char>>, needle: Seq<char>, known: Seq<Seq<char>>) -> Set<Seq<char>> {
    Set::new(
        |x: Seq<char>|
            exists|i: int|
                0 <= i < arns.len() && has_infix(arns[i], needle) && !known.contains(
                    tracked_name(arns[i]),
                ) && x == tracked_name(#[trigger] arns[i]),
    )
}

/// Adds to `found` the names of the resources of `arns` that the search
/// finds.
fn discover_in(found: &mut Vec<String>, arns: &Vec<String>, needle: &Vec<char>, known: &Vec<String>)
    requires
        no_dups(strs_of(old(found)@)),
    ensures
        no_dups(strs_of(final(found)@)),
        strs_of(final(found)@).to_set() == strs_of(old(found)@).to_set() + discovered(
            strs_of(arns@),
            needle@,
            strs_of(known@),
        ),
{
    let ghost start = strs_of(found@).to_set();
    let ghost all = strs_of(arns@);
    let ghost tr = strs_of(known@);
    let mut i: usize = 0;
    assert(discovered(all.take(0), needle@, tr) =~= Set::empty());
    while i < arns.len()
        invariant
            i <= arns.len(),
            all == strs_of(arns@),
            tr == strs_of(known@),
            no_dups(strs_of(found@)),
            strs_of(found@).to_set() == start + discovered(all.take(i as int), needle@, tr),
        decreases arns.len() - i,
    {
        let arn = &arns[i];
        let chars = chars_of(arn.as_str());
        let ghost before = discovered(all.take(i as int), needle@, tr);
        let ghost after = discovered(all.take(i + 1), needle@, tr);
        assert(all.take(i + 1)[i as int] == arn@);
        assert forall|k: int| 0 <= k < i implies all.take(i + 1)[k] == #[trigger] all.take(i as int)[k] by {}
        let hit = contains(&chars, needle);
        let name = arn_to_name(arn.as_str());
        let mut fresh = false;
        if hit {
            match position_of(known, name.as_str()) {
                Some(q) => {
                    assert(strs_of(known@)[q as int] == name@);
                    assert(tr.contains(tracked_name(arn@)));
                },
                None => {
                    fresh = true;
                },
            }
        }
        if fresh {
            insert_unique(found, name);
            assert(after =~= before.insert(tracked_name(arn@))) by {
                assert forall|x: Seq<char>| after.contains(x) implies #[trigger] before.insert(tracked_name(arn@)).contains(x) by {
                    let k = choose|k: int|
                        0 <= k < all.take(i + 1).len() && has_infix(all.take(i + 1)[k], needle@)
                            && !tr.contains(tracked_name(all.take(i + 1)[k])) && x == tracked_name(
                            #[trigger] all.take(i + 1)[k],
                        );
                    if k < i {
                        assert(all.take(i as int)[k] == all.take(i + 1)[k]);
                    }
                }
                assert forall|x: Seq<char>| before.insert(tracked_name(arn@)).contains(x) implies #[trigger] after.contains(x) by {
                    if x != tracked_name(arn@) {
                        let k = choose|k: int|
                            0 <= k < all.take(i as int).len() && has_infix(all.take(i as int)[k], needle@)
                                && !tr.contains(tracked_name(all.take(i as int)[k])) && x == tracked_name(
                                #[trigger] all.take(i as int)[k],
                            );
                        assert(all.take(i + 1)[k] == all.take(i as int)[k]);
                    } else {
                        assert(all.take(i + 1)[i as int] == arn@);
                    }
                }
            }
            assert(strs_of(found@).to_set() =~= start + after);
            i = i + 1;
            continue;
        }
        assert(!(has_infix(arn@, needle@) && !tr.contains(tracked_name(arn@))));
        assert(after =~= before) by {
            assert forall|x: Seq<char>| after.contains(x) implies #[trigger] before.contains(x) by {
                let k = choose|k: int|
                    0 <= k < all.take(i + 1).len() && has_infix(all.take(i + 1)[k], needle@)
                        && !tr.contains(tracked_name(all.take(i + 1)[k])) && x == tracked_name(
                        #[trigger] all.take(i + 1)[k],
                    );
                if k < i {
                    assert(all.take(i as int)[k] == all.take(i + 1)[k]);
                }
            }
            assert forall|x: Seq<char>| before.contains(x) implies #[trigger] after.contains(x) by {
                let k = choose|k: int|
                    0 <= k < all.take(i as int).len() && has_infix(all.take(i as int)[k], needle@)
                        && !tr.contains(tracked_name(all.take(i as int)[k])) && x == tracked_name(
                        #[trigger] all.take(i as int)[k],
                    );
                assert(all.take(i + 1)[k] == all.take(i as int)[k]);
            }
        }
        i = i + 1;
    }
    assert(all.take(arns.len() as int) =~= all);
}

/// The names a search for `name` (in lower case) finds among the databases
/// and services: each found once, none that is known already; nothing
/// for an empty search.
pub fn discover(name: &str, known: &Vec<String>, db_arns: &Vec<String>, service_arns: &Vec<String>) -> (r:
    Vec<String>)
    ensures
        no_dups(strs_of(r@)),
        lowercase_of(name@).len() == 0 ==> r.len() == 0,
        lowercase_of(name@).len() > 0 ==> strs_of(r@).to_set() == discovered(
            strs_of(db_arns@),
            lowercase_of(name@),
            strs_of(known@),
        ) + discovered(strs_of(service_arns@), lowercase_of(name@), strs_of(known@)),
{
    let needle = chars_of(to_lowercase(name).as_str());
    let mut found: Vec<String> = Vec::new();
    if needle.len() == 0 {
        return found;
    }
    assert(strs_of(found@).to_set() =~= Set::empty());
    discover_in(&mut found, db_arns, &needle, known);
    discover_in(&mut found, service_arns, &needle, known);
    assert(Set::<Seq<char>>::empty() + discovered(strs_of(db_arns@), needle@, strs_of(known@))
        =~= discovered(strs_of(db_arns@), needle@, strs_of(known@)));
    found
}

/// Whether `env` is one of `envs`.
pub fn env_listed(envs: &Vec<Env>, env: Env) -> (r: bool)
    ensures
        r == envs@.contains(env),
{
    let mut i: usize = 0;
    while i < envs.len()
        invariant
            i <= envs.len(),
            forall|j: int| 0 <= j < i ==> envs@[j] != env,
        decreases envs.len() - i,
    {
        if envs[i] == env {
            return true;
        }
        i = i + 1;
    }
    false
}

/// The services of `ss` that `keep` selects, in order.
pub open spec fn services_where(ss: Seq<EcsService>, keep: spec_fn(EcsService) -> bool) -> Seq<EcsService>
    decreases ss.len(),
{
    if ss.len() == 0 {
        ss
    } else if keep(ss.last()) {
        services_where(ss.drop_last(), keep).push(ss.last())
    } else {
        services_where(ss.drop_last(), keep)
    }
}

/// The databases of `ds` that `keep` selects, in order.
pub open spec fn databases_where(ds: Seq<RdsInstance>, keep: spec_fn(RdsInstance) -> bool) -> Seq<RdsInstance>
    decreases ds.len(),
{
    if ds.len() == 0 {
        ds
    } else if keep(ds.last()) {
        databases_where(ds.drop_last(), keep).push(ds.last())
    } else {
        databases_where(ds.drop_last(), keep)
    }
}

/// The clusters of `cs` that `keep` selects, in order.
pub open spec fn clusters_where(cs: Seq<Cluster>, keep: spec_fn(Cluster) -> bool) -> Seq<Cluster>
    decreases cs.len(),
{
    if cs.len() == 0 {
        cs
    } else if keep(cs.last()) {
        clusters_where(cs.drop_last(), keep).push(cs.last())
    } else {
        clusters_where(cs.drop_last(), keep)
    }
}

/// What `services_where` keeps: exactly the items of `ss` that `keep` selects.
pub proof fn lemma_services_where(ss: Seq<EcsService>, keep: spec_fn(EcsService) -> bool)
    ensures
        forall|x: EcsService| #[trigger] services_where(ss, keep).contains(x) <==> (ss.contains(x) && keep(x)),
    decreases ss.len(),
{
    if ss.len() > 0 {
        let init = ss.drop_last();
        let l = ss.last();
        lemma_services_where(init, keep);
        assert forall|x: EcsService| #[trigger] services_where(ss, keep).contains(x) <==> (ss.contains(x) && keep(x)) by {
            let rest = services_where(init, keep);
            if ss.contains(x) {
                let i = choose|i: int| 0 <= i < ss.len() && ss[i] == x;
                if i < ss.len() - 1 {
                    assert(init[i] == x);
                    assert(init.contains(x));
                }
            }
            if init.contains(x) {
                let i = choose|i: int| 0 <= i < init.len() && init[i] == x;
                assert(ss[i] == x);
            }
            if keep(l) {
                assert(rest.push(l)[rest.len() as int] == l);
                if rest.push(l).contains(x) {
                    let i = choose|i: int| 0 <= i < rest.push(l).len() && rest.push(l)[i] == x;
                    if i < rest.len() {
                        assert(rest[i] == x);
                    }
                }
                if rest.contains(x) {
                    let i = choose|i: int| 0 <= i < rest.len() && rest[i] == x;
                    assert(rest.push(l)[i] == x);
                }
            }
        }
    }
}

/// What `databases_where` keeps: exactly the items of `ds` that `keep` selects.
pub proof fn lemma_databases_where(ds: Seq<RdsInstance>, keep: spec_fn(RdsInstance) -> bool)
    ensures
        forall|x: RdsInstance| #[trigger] databases_where(ds, keep).contains(x) <==> (ds.contains(x) && keep(x)),
    decreases ds.len(),
{
    if ds.len() > 0 {
        let init = ds.drop_last();
        let l = ds.last();
        lemma_databases_where(init, keep);
        assert forall|x: RdsInstance| #[trigger] databases_where(ds, keep).contains(x) <==> (ds.contains(x) && keep(x)) by {
            let rest = databases_where(init, keep);
            if ds.contains(x) {
                let i = choose|i: int| 0 <= i < ds.len() && ds[i] == x;
                if i < ds.len() - 1 {
                    assert(init[i] == x);
                    assert(init.contains(x));
                }
            }
            if init.contains(x) {
                let i = choose|i: int| 0 <= i < init.len() && init[i] == x;
                assert(ds[i] == x);
            }
            if keep(l) {
                assert(rest.push(l)[rest.len() as int] == l);
                if rest.push(l).contains(x) {
                    let i = choose|i: int| 0 <= i < rest.push(l).len() && rest.push(l)[i] == x;
                    if i < rest.len() {
                        assert(rest[i] == x);
                    }
                }
                if rest.contains(x) {
                    let i = choose|i: int| 0 <= i < rest.len() && rest[i] == x;
                    assert(rest.push(l)[i] == x);
                }
            }
        }
    }
}

/// What `clusters_where` keeps: exactly the items of `cs` that `keep` selects.
pub proof fn lemma_clusters_where(cs: Seq<Cluster>, keep: spec_fn(Cluster) -> bool)
    ensures
        forall|x: Cluster| #[trigger] clusters_where(cs, keep).contains(x) <==> (cs.contains(x) && keep(x)),
    decreases cs.len(),
{
    if cs.len() > 0 {
        let init = cs.drop_last();
        let l = cs.last();
        lemma_clusters_where(init, keep);
        assert forall|x: Cluster| #[trigger] clusters_where(cs, keep).contains(x) <==> (cs.contains(x) && keep(x)) by {
            let rest = clusters_where(init, keep);
            if cs.contains(x) {
                let i = choose|i: int| 0 <= i < cs.len() && cs[i] == x;
                if i < cs.len() - 1 {
                    assert(init[i] == x);
                    assert(init.contains(x));
                }
            }
            if init.contains(x) {
                let i = choose|i: int| 0 <= i < init.len() && init[i] == x;
                assert(cs[i] == x);
            }
            if keep(l) {
                assert(rest.push(l)[rest.len() as int] == l);
                if rest.push(l).contains(x) {
                    let i = choose|i: int| 0 <= i < rest.push(l).len() && rest.push(l)[i] == x;
                    if i < rest.len() {
                        assert(rest[i] == x);
                    }
                }
                if rest.contains(x) {
                    let i = choose|i: int| 0 <= i < rest.len() && rest[i] == x;
                    assert(rest.push(l)[i] == x);
                }
            }
        }
    }
}

/// `services_where` keeps the items in their order: where `keep` selects all of
/// `ss`, all of it is kept as it is.
pub proof fn lemma_services_where_all(ss: Seq<EcsService>, keep: spec_fn(EcsService) -> bool)
    requires
        forall|i: int| 0 <= i < ss.len() ==> keep(#[trigger] ss[i]),
    ensures
        services_where(ss, keep) == ss,
    decreases ss.len(),
{
    if ss.len() > 0 {
        let init = ss.drop_last();
        assert forall|i: int| 0 <= i < init.len() implies keep(#[trigger] init[i]) by {
            assert(init[i] == ss[i]);
        }
        lemma_services_where_all(init, keep);
        assert(keep(ss[ss.len() - 1]));
        assert(init.push(ss.last()) =~= ss);
    }
}

/// `databases_where` keeps the items in their order: where `keep` selects all of
/// `ds`, all of it is kept as it is.
pub proof fn lemma_databases_where_all(ds: Seq<RdsInstance>, keep: spec_fn(RdsInstance) -> bool)
    requires
        forall|i: int| 0 <= i < ds.len() ==> keep(#[trigger] ds[i]),
    ensures
        databases_where(ds, keep) == ds,
    decreases ds.len(),
{
    if ds.len() > 0 {
        let init = ds.drop_last();
        assert forall|i: int| 0 <= i < init.len() implies keep(#[trigger] init[i]) by {
            assert(init[i] == ds[i]);
        }
        lemma_databases_where_all(init, keep);
        assert(keep(ds[ds.len() - 1]));
        assert(init.push(ds.last()) =~= ds);
    }
}

/// `clusters_where` keeps the items in their order: where `keep` selects all of
/// `cs`, all of it is kept as it is.
pub proof fn lemma_clusters_where_all(cs: Seq<Cluster>, keep: spec_fn(Cluster) -> bool)
    requires
        forall|i: int| 0 <= i < cs.len() ==> keep(#[trigger] cs[i]),
    ensures
        clusters_where(cs, keep) == cs,
    decreases cs.len(),
{
    if cs.len() > 0 {
        let init = cs.drop_last();
        assert forall|i: int| 0 <= i < init.len() implies keep(#[trigger] init[i]) by {
            assert(init[i] == cs[i]);
        }
        lemma_clusters_where_all(init, keep);
        assert(keep(cs[cs.len() - 1]));
        assert(init.push(cs.last()) =~= cs);
    }
}

/// The services of application `app` in one of `envs`.
pub open spec fn of_app(app: Seq<char>, envs: Seq<Env>) -> spec_fn(EcsService) -> bool {
    |s: EcsService| s.name@ == app && envs.contains(s.env)
}

/// The services of the cluster `cluster_arn`.
pub open spec fn of_cluster(cluster_arn: Seq<char>) -> spec_fn(EcsService) -> bool {
    |s: EcsService| s.cluster_arn@ == cluster_arn
}

/// The services in one of `envs`.
pub open spec fn service_in(envs: Seq<Env>) -> spec_fn(EcsService) -> bool {
    |s: EcsService| envs.contains(s.env)
}

/// The databases tagged with application `app`, in one of `envs`.
pub open spec fn db_of_app(app: Seq<char>, envs: Seq<Env>) -> spec_fn(RdsInstance) -> bool {
    |d: RdsInstance| d.appname_tag@ == app && envs.contains(d.env)
}

/// The databases in one of `envs`.
pub open spec fn db_in(envs: Seq<Env>) -> spec_fn(RdsInstance) -> bool {
    |d: RdsInstance| envs.contains(d.env)
}

/// The clusters in one of `envs`.
pub open spec fn cluster_in(envs: Seq<Env>) -> spec_fn(Cluster) -> bool {
    |c: Cluster| envs.contains(c.env)
}

fn same_str(a: &str, b: &str) -> (r: bool)
    ensures
        r == (a@ == b@),
{
    a.to_string() == b.to_string()
}

/// The services of application `app` (by service name) in the configured
/// environments `envs`, whose details are shown.
pub fn services_for_app(services: &Vec<EcsService>, app: &str, envs: &Vec<Env>) -> (r: Vec<EcsService>)
    ensures
        r@ == services_where(services@, of_app(app@, envs@)),
        forall|s: EcsService| #[trigger] r@.contains(s) <==> (services@.contains(s) && s.name@ == app@ && envs@.contains(s.env)),
{
    let mut r: Vec<EcsService> = Vec::new();
    let mut i: usize = 0;
    while i < services.len()
        invariant
            i <= services.len(),
            r@ == services_where(services@.take(i as int), of_app(app@, envs@)),
        decreases services.len() - i,
    {
        assert(services@.take(i + 1).drop_last() =~= services@.take(i as int));
        assert(services@.take(i + 1).last() == services@[i as int]);
        let s = &services[i];
        if same_str(s.name.as_str(), app) && env_listed(envs, s.env) {
            r.push(s.duplicate());
        }
        i = i + 1;
    }
    assert(services@.take(services.len() as int) =~= services@);
    proof {
        lemma_services_where(services@, of_app(app@, envs@));
    }
    r
}

/// The services of cluster `cluster_arn`.
pub fn services_of_cluster(services: &Vec<EcsService>, cluster_arn: &str) -> (r: Vec<EcsService>)
    ensures
        r@ == services_where(services@, of_cluster(cluster_arn@)),
{
    let mut r: Vec<EcsService> = Vec::new();
    let mut i: usize = 0;
    while i < services.len()
        invariant
            i <= services.len(),
            r@ == services_where(services@.take(i as int), of_cluster(cluster_arn@)),
        decreases services.len() - i,
    {
        assert(services@.take(i + 1).drop_last() =~= services@.take(i as int));
        assert(services@.take(i + 1).last() == services@[i as int]);
        let s = &services[i];
        if same_str(s.cluster_arn.as_str(), cluster_arn) {
            r.push(s.duplicate());
        }
        i = i + 1;
    }
    assert(services@.take(services.len() as int) =~= services@);
    r
}

/// The services in the configured environments `envs`.
pub fn services_in_envs(services: &Vec<EcsService>, envs: &Vec<Env>) -> (r: Vec<EcsService>)
    ensures
        r@ == services_where(services@, service_in(envs@)),
        forall|s: EcsService| #[trigger] r@.contains(s) <==> (services@.contains(s) && envs@.contains(s.env)),
{
    let mut r: Vec<EcsService> = Vec::new();
    let mut i: usize = 0;
    while i < services.len()
        invariant
            i <= services.len(),
            r@ == services_where(services@.take(i as int), service_in(envs@)),
        decreases services.len() - i,
    {
        assert(services@.take(i + 1).drop_last() =~= services@.take(i as int));
        assert(services@.take(i + 1).last() == services@[i as int]);
        let s = &services[i];
        if env_listed(envs, s.env) {
            r.push(s.duplicate());
        }
        i = i + 1;
    }
    assert(services@.take(services.len() as int) =~= services@);
    proof {
        lemma_services_where(services@, service_in(envs@));
    }
    r
}

/// The databases tagged with application `app` in the configured
/// environments `envs`, whose details are shown.
pub fn databases_for_app(dbs: &Vec<RdsInstance>, app: &str, envs: &Vec<Env>) -> (r: Vec<RdsInstance>)
    ensures
        r@ == databases_where(dbs@, db_of_app(app@, envs@)),
        forall|d: RdsInstance| #[trigger] r@.contains(d) <==> (dbs@.contains(d) && d.appname_tag@ == app@ && envs@.contains(d.env)),
{
    let mut r: Vec<RdsInstance> = Vec::new();
    let mut i: usize = 0;
    while i < dbs.len()
        invariant
            i <= dbs.len(),
            r@ == databases_where(dbs@.take(i as int), db_of_app(app@, envs@)),
        decreases dbs.len() - i,
    {
        assert(dbs@.take(i + 1).drop_last() =~= dbs@.take(i as int));
        assert(dbs@.take(i + 1).last() == dbs@[i as int]);
        let d = &dbs[i];
        if same_str(d.appname_tag.as_str(), app) && env_listed(envs, d.env) {
            r.push(d.duplicate());
        }
        i = i + 1;
    }
    assert(dbs@.take(dbs.len() as int) =~= dbs@);
    proof {
        lemma_databases_where(dbs@, db_of_app(app@, envs@));
    }
    r
}

/// The databases in the configured environments `envs` (for the list of
/// one environment, `envs` holds that one).
pub fn databases_in_envs(dbs: &Vec<RdsInstance>, envs: &Vec<Env>) -> (r: Vec<RdsInstance>)
    ensures
        r@ == databases_where(dbs@, db_in(envs@)),
        forall|d: RdsInstance| #[trigger] r@.contains(d) <==> (dbs@.contains(d) && envs@.contains(d.env)),
{
    let mut r: Vec<RdsInstance> = Vec::new();
    let mut i: usize = 0;
    while i < dbs.len()
        invariant
            i <= dbs.len(),
            r@ == databases_where(dbs@.take(i as int), db_in(envs@)),
        decreases dbs.len() - i,
    {
        assert(dbs@.take(i + 1).drop_last() =~= dbs@.take(i as int));
        assert(dbs@.take(i + 1).last() == dbs@[i as int]);
        let d = &dbs[i];
        if env_listed(envs, d.env) {
            r.push(d.duplicate());
        }
        i = i + 1;
    }
    assert(dbs@.take(dbs.len() as int) =~= dbs@);
    proof {
        lemma_databases_where(dbs@, db_in(envs@));
    }
    r
}

/// A copy of a cluster.
pub fn duplicate_cluster(c: &Cluster) -> (r: Cluster)
    ensures
        r == *c,
{
    Cluster { name: c.name.clone(), arn: c.arn.clone(), env: c.env }
}

/// The clusters in the configured environments `envs`.
pub fn clusters_in_envs(clusters: &Vec<Cluster>, envs: &Vec<Env>) -> (r: Vec<Cluster>)
    ensures
        r@ == clusters_where(clusters@, cluster_in(envs@)),
        forall|c: Cluster| #[trigger] r@.contains(c) <==> (clusters@.contains(c) && envs@.contains(c.env)),
{
    let mut r: Vec<Cluster> = Vec::new();
    let mut i: usize = 0;
    while i < clusters.len()
        invariant
            i <= clusters.len(),
            r@ == clusters_where(clusters@.take(i as int), cluster_in(envs@)),
        decreases clusters.len() - i,
    {
        assert(clusters@.take(i + 1).drop_last() =~= clusters@.take(i as int));
        assert(clusters@.take(i + 1).last() == clusters@[i as int]);
        let c = &clusters[i];
        if env_listed(envs, c.env) {
            r.push(duplicate_cluster(c));
        }
        i = i + 1;
    }
    assert(clusters@.take(clusters.len() as int) =~= clusters@);
    proof {
        lemma_clusters_where(clusters@, cluster_in(envs@));
    }
    r
}

/// Item `i` of `arns` is the last with its ARN.
pub open spec fn last_with_arn(arns: Seq<Seq<char>>, i: int) -> bool {
    forall|j: int| i < j < arns.len() ==> arns[j] != #[trigger] arns[i]
}

/// The positions `k < n` of `arns` that hold the last item with their ARN,
/// in order: what remains when items are put into a map by ARN, one after
/// the other.
pub open spec fn last_positions(arns: Seq<Seq<char>>, n: int) -> Seq<int>
    decreases n,
{
    if n <= 0 {
        Seq::<int>::empty()
    } else if last_with_arn(arns, n - 1) {
        last_positions(arns, n - 1).push(n - 1)
    } else {
        last_positions(arns, n - 1)
    }
}

/// The ARNs of some services.
pub open spec fn service_arns(ss: Seq<EcsService>) -> Seq<Seq<char>> {
    Seq::new(ss.len(), |i: int| ss[i].arn@)
}

/// The ARNs of some databases.
pub open spec fn database_arns(ds: Seq<RdsInstance>) -> Seq<Seq<char>> {
    Seq::new(ds.len(), |i: int| ds[i].arn@)
}

/// The ARNs of some clusters.
pub open spec fn cluster_arns(cs: Seq<Cluster>) -> Seq<Seq<char>> {
    Seq::new(cs.len(), |i: int| cs[i].arn@)
}

/// Whether the text at position `i` of `arns` occurs again later.
fn occurs_later(arns: &Vec<String>, i: usize) -> (r: bool)
    requires
        i < arns.len(),
    ensures
        r == !last_with_arn(strs_of(arns@), i as int),
{
    let mut j: usize = i + 1;
    while j < arns.len()
        invariant
            i < j <= arns.len(),
            forall|k: int| i < k < j ==> arns@[k]@ != arns@[i as int]@,
        decreases arns.len() - j,
    {
        if same_str(arns[j].as_str(), arns[i].as_str()) {
            assert(strs_of(arns@)[j as int] == strs_of(arns@)[i as int]);
            return true;
        }
        j = j + 1;
    }
    assert forall|k: int| i < k < arns.len() implies strs_of(arns@)[k] != #[trigger] strs_of(arns@)[i as int] by {
        assert(strs_of(arns@)[k] == arns@[k]@);
    }
    false
}

/// The positions of the last occurrence of each text of `arns`.
pub fn last_occurrences(arns: &Vec<String>) -> (r: Vec<usize>)
    ensures
        r@.len() == last_positions(strs_of(arns@), arns.len() as int).len(),
        forall|k: int| 0 <= k < r.len() ==> r@[k] as int == #[trigger] last_positions(
            strs_of(arns@),
            arns.len() as int,
        )[k],
{
    let mut r: Vec<usize> = Vec::new();
    let mut i: usize = 0;
    while i < arns.len()
        invariant
            i <= arns.len(),
            r@.len() == last_positions(strs_of(arns@), i as int).len(),
            forall|k: int| 0 <= k < r.len() ==> r@[k] as int == #[trigger] last_positions(strs_of(arns@), i as int)[k],
        decreases arns.len() - i,
    {
        let ghost prev = last_positions(strs_of(arns@), i as int);
        if !occurs_later(arns, i) {
            r.push(i);
            assert(last_positions(strs_of(arns@), i + 1) == prev.push(i as int));
        } else {
            assert(last_positions(strs_of(arns@), i + 1) == prev);
        }
        i = i + 1;
    }
    r
}

/// The services with distinct ARNs that remain when `services` are put into
/// a map by ARN one after the other: for each ARN its last service.
pub fn unique_services(services: &Vec<EcsService>) -> (r: Vec<EcsService>)
    ensures
        r.len() == last_positions(service_arns(services@), services.len() as int).len(),
        forall|k: int| 0 <= k < r.len() ==> #[trigger] r@[k] == services@[last_positions(
            service_arns(services@),
            services.len() as int,
        )[k]],
{
    let mut arns: Vec<String> = Vec::new();
    let mut i: usize = 0;
    while i < services.len()
        invariant
            i <= services.len(),
            arns.len() == i,
            forall|k: int| 0 <= k < i ==> (#[trigger] arns@[k])@ == services@[k].arn@,
        decreases services.len() - i,
    {
        arns.push(services[i].arn.clone());
        i = i + 1;
    }
    assert(strs_of(arns@) =~= service_arns(services@));
    let positions = last_occurrences(&arns);
    let mut r: Vec<EcsService> = Vec::new();
    let mut k: usize = 0;
    while k < positions.len()
        invariant
            k <= positions.len(),
            r.len() == k,
            arns.len() == services.len(),
            strs_of(arns@) == service_arns(services@),
            positions@.len() == last_positions(strs_of(arns@), arns.len() as int).len(),
            forall|q: int| 0 <= q < positions.len() ==> positions@[q] as int == #[trigger] last_positions(strs_of(arns@), arns.len() as int)[q],
            forall|q: int| 0 <= q < k ==> #[trigger] r@[q] == services@[last_positions(service_arns(services@), services.len() as int)[q]],
        decreases positions.len() - k,
    {
        proof {
            lemma_last_positions_bounded(strs_of(arns@), arns.len() as int, k as int);
        }
        let p = positions[k];
        r.push(services[p].duplicate());
        k = k + 1;
    }
    r
}

/// The positions that `last_positions` lists lie below `n`.
pub proof fn lemma_last_positions_bounded(arns: Seq<Seq<char>>, n: int, k: int)
    requires
        0 <= k < last_positions(arns, n).len(),
    ensures
        0 <= last_positions(arns, n)[k] < n,
    decreases n,
{
    if n > 0 {
        if last_with_arn(arns, n - 1) {
            if k < last_positions(arns, n - 1).len() {
                lemma_last_positions_bounded(arns, n - 1, k);
            }
        } else {
            lemma_last_positions_bounded(arns, n - 1, k);
        }
    }
}

/// Putting items into a map by ARN keeps one item for each ARN: no two kept
/// positions hold the same ARN, and every ARN keeps a position.
pub proof fn law_unique_by_arn(arns: Seq<Seq<char>>)
    ensures
        forall|a: int, b: int|
            0 <= a < b < last_positions(arns, arns.len() as int).len() ==> arns[last_positions(
                arns,
                arns.len() as int,
            )[a]] != arns[last_positions(arns, arns.len() as int)[b]],
        forall|i: int| #![trigger arns[i]]
            0 <= i < arns.len() ==> exists|k: int|
                0 <= k < last_positions(arns, arns.len() as int).len() && arns[#[trigger] last_positions(
                    arns,
                    arns.len() as int,
                )[k]] == arns[i],
{
    lemma_last_positions_props(arns, arns.len() as int);
}

/// What `last_positions` keeps of a prefix of length `n`.
pub proof fn lemma_last_positions_props(arns: Seq<Seq<char>>, n: int)
    requires
        0 <= n <= arns.len(),
    ensures
        forall|k: int| 0 <= k < last_positions(arns, n).len() ==> 0 <= #[trigger] last_positions(arns, n)[k] < n
            && last_with_arn(arns, last_positions(arns, n)[k]),
        forall|a: int, b: int|
            0 <= a < b < last_positions(arns, n).len() ==> last_positions(arns, n)[a] < last_positions(
                arns,
                n,
            )[b],
        forall|i: int|
            0 <= i < n && last_with_arn(arns, i) ==> exists|k: int|
                0 <= k < last_positions(arns, n).len() && #[trigger] last_positions(arns, n)[k] == i,
        forall|a: int, b: int|
            0 <= a < b < last_positions(arns, n).len() ==> arns[last_positions(arns, n)[a]] != arns[last_positions(
                arns,
                n,
            )[b]],
        n == arns.len() ==> forall|i: int| #![trigger arns[i]]
            0 <= i < arns.len() ==> exists|k: int|
                0 <= k < last_positions(arns, n).len() && arns[#[trigger] last_positions(arns, n)[k]]
                    == arns[i],
    decreases n,
{
    if n > 0 {
        lemma_last_positions_props(arns, n - 1);
        let prev = last_positions(arns, n - 1);
        let cur = last_positions(arns, n);
        if last_with_arn(arns, n - 1) {
            assert(cur == prev.push(n - 1));
            assert forall|i: int| 0 <= i < n && last_with_arn(arns, i) implies exists|k: int|
                0 <= k < cur.len() && #[trigger] cur[k] == i by {
                if i < n - 1 {
                    let k = choose|k: int| 0 <= k < prev.len() && #[trigger] prev[k] == i;
                    assert(cur[k] == i);
                } else {
                    assert(cur[prev.len() as int] == i);
                }
            }
        } else {
            assert(cur == prev);
        }
    }
    if n == arns.len() {
        assert forall|i: int| #![trigger arns[i]] 0 <= i < arns.len() implies exists|k: int|
            0 <= k < last_positions(arns, n).len() && arns[#[trigger] last_positions(arns, n)[k]]
                == arns[i] by {
            lemma_later_last(arns, i);
            let j = choose|j: int| i <= j < arns.len() && arns[j] == arns[i] && last_with_arn(arns, j);
            let k = choose|k: int| 0 <= k < last_positions(arns, n).len() && #[trigger] last_positions(arns, n)[k] == j;
        }
    }
}

/// Every item has a last item with its ARN at or after it.
pub proof fn lemma_later_last(arns: Seq<Seq<char>>, i: int)
    requires
        0 <= i < arns.len(),
    ensures
        exists|j: int| i <= j < arns.len() && arns[j] == arns[i] && last_with_arn(arns, j),
    decreases arns.len() - i,
{
    if !last_with_arn(arns, i) {
        let j = choose|j: int| i < j < arns.len() && arns[j] == arns[i];
        lemma_later_last(arns, j);
    }
}

/// A search never offers a name the user already tracks.
pub proof fn law_discover_skips_known(arns: Seq<Seq<char>>, needle: Seq<char>, known: Seq<Seq<char>>, x: Seq<char>)
    requires
        discovered(arns, needle, known).contains(x),
    ensures
        !known.contains(x),
{
}

/// Whether `arn` is the ARN of one of `clusters`.
fn cluster_listed(clusters: &Vec<Cluster>, arn: &str) -> (r: bool)
    ensures
        r == exists|i: int| 0 <= i < clusters.len() && (#[trigger] clusters@[i]).arn@ == arn@,
{
    let mut i: usize = 0;
    while i < clusters.len()
        invariant
            i <= clusters.len(),
            forall|j: int| 0 <= j < i ==> (#[trigger] clusters@[j]).arn@ != arn@,
        decreases clusters.len() - i,
    {
        if same_str(clusters[i].arn.as_str(), arn) {
            return true;
        }
        i = i + 1;
    }
    false
}

/// The services of one of `clusters`.
pub open spec fn in_clusters(clusters: Seq<Cluster>) -> spec_fn(EcsService) -> bool {
    |s: EcsService| exists|i: int| 0 <= i < clusters.len() && (#[trigger] clusters[i]).arn@ == s.cluster_arn@
}

/// The cached services that belong to one of `clusters`.
pub fn services_in_clusters(services: &Vec<EcsService>, clusters: &Vec<Cluster>) -> (r: Vec<EcsService>)
    ensures
        r@ == services_where(services@, in_clusters(clusters@)),
{
    let mut r: Vec<EcsService> = Vec::new();
    let mut i: usize = 0;
    while i < services.len()
        invariant
            i <= services.len(),
            r@ == services_where(services@.take(i as int), in_clusters(clusters@)),
        decreases services.len() - i,
    {
        assert(services@.take(i + 1).drop_last() =~= services@.take(i as int));
        assert(services@.take(i + 1).last() == services@[i as int]);
        let s = &services[i];
        if cluster_listed(clusters, s.cluster_arn.as_str()) {
            r.push(s.duplicate());
        }
        i = i + 1;
    }
    assert(services@.take(services.len() as int) =~= services@);
    r
}

/// The databases with distinct ARNs that remain when `dbs` are put into a
/// map by ARN one after the other: for each ARN its last database.
pub fn unique_databases(dbs: &Vec<RdsInstance>) -> (r: Vec<RdsInstance>)
    ensures
        r.len() == last_positions(database_arns(dbs@), dbs.len() as int).len(),
        forall|k: int| 0 <= k < r.len() ==> #[trigger] r@[k] == dbs@[last_positions(
            database_arns(dbs@),
            dbs.len() as int,
        )[k]],
{
    let mut arns: Vec<String> = Vec::new();
    let mut i: usize = 0;
    while i < dbs.len()
        invariant
            i <= dbs.len(),
            arns.len() == i,
            forall|k: int| 0 <= k < i ==> (#[trigger] arns@[k])@ == dbs@[k].arn@,
        decreases dbs.len() - i,
    {
        arns.push(dbs[i].arn.clone());
        i = i + 1;
    }
    assert(strs_of(arns@) =~= database_arns(dbs@));
    let positions = last_occurrences(&arns);
    let mut r: Vec<RdsInstance> = Vec::new();
    let mut k: usize = 0;
    while k < positions.len()
        invariant
            k <= positions.len(),
            r.len() == k,
            arns.len() == dbs.len(),
            strs_of(arns@) == database_arns(dbs@),
            positions@.len() == last_positions(strs_of(arns@), arns.len() as int).len(),
            forall|q: int| 0 <= q < positions.len() ==> positions@[q] as int == #[trigger] last_positions(strs_of(arns@), arns.len() as int)[q],
            forall|q: int| 0 <= q < k ==> #[trigger] r@[q] == dbs@[last_positions(database_arns(dbs@), dbs.len() as int)[q]],
        decreases positions.len() - k,
    {
        proof {
            lemma_last_positions_bounded(strs_of(arns@), arns.len() as int, k as int);
        }
        let p = positions[k];
        r.push(dbs[p].duplicate());
        k = k + 1;
    }
    r
}

/// The clusters with distinct ARNs that remain when `clusters` are put into
/// a map by ARN one after the other: for each ARN its last cluster.
pub fn unique_clusters(clusters: &Vec<Cluster>) -> (r: Vec<Cluster>)
    ensures
        r.len() == last_positions(cluster_arns(clusters@), clusters.len() as int).len(),
        forall|k: int| 0 <= k < r.len() ==> #[trigger] r@[k] == clusters@[last_positions(
            cluster_arns(clusters@),
            clusters.len() as int,
        )[k]],
{
    let mut arns: Vec<String> = Vec::new();
    let mut i: usize = 0;
    while i < clusters.len()
        invariant
            i <= clusters.len(),
            arns.len() == i,
            forall|k: int| 0 <= k < i ==> (#[trigger] arns@[k])@ == clusters@[k].arn@,
        decreases clusters.len() - i,
    {
        arns.push(clusters[i].arn.clone());
        i = i + 1;
    }
    assert(strs_of(arns@) =~= cluster_arns(clusters@));
    let positions = last_occurrences(&arns);
    let mut r: Vec<Cluster> = Vec::new();
    let mut k: usize = 0;
    while k < positions.len()
        invariant
            k <= positions.len(),
            r.len() == k,
            arns.len() == clusters.len(),
            strs_of(arns@) == cluster_arns(clusters@),
            positions@.len() == last_positions(strs_of(arns@), arns.len() as int).len(),
            forall|q: int| 0 <= q < positions.len() ==> positions@[q] as int == #[trigger] last_positions(strs_of(arns@), arns.len() as int)[q],
            forall|q: int| 0 <= q < k ==> #[trigger] r@[q] == clusters@[last_positions(cluster_arns(clusters@), clusters.len() as int)[q]],
        decreases positions.len() - k,
    {
        proof {
            lemma_last_positions_bounded(strs_of(arns@), arns.len() as int, k as int);
        }
        let p = positions[k];
        r.push(duplicate_cluster(&clusters[p]));
        k = k + 1;
    }
    r
}

/// Listing the services of the configured environments keeps exactly the
/// services whose environment is one of `envs`, whatever its place among
/// them; two lists of the same environments give the same services.
pub proof fn law_services_in_envs(services: Seq<EcsService>, envs: Seq<Env>, other: Seq<Env>)
    ensures
        forall|s: EcsService| #[trigger] services_where(services, service_in(envs)).contains(s) <==> (
        services.contains(s) && envs.contains(s.env)),
        envs.to_set() == other.to_set() ==> services_where(services, service_in(envs))
            == services_where(services, service_in(other)),
        (forall|i: int| 0 <= i < services.len() ==> envs.contains(#[trigger] services[i].env))
            ==> services_where(services, service_in(envs)) == services,
{
    lemma_services_where(services, service_in(envs));
    if forall|i: int| 0 <= i < services.len() ==> envs.contains(#[trigger] services[i].env) {
        lemma_services_where_all(services, service_in(envs));
    }
    if envs.to_set() == other.to_set() {
        assert forall|s: EcsService| #[trigger] service_in(envs)(s) == service_in(other)(s) by {
            assert(envs.contains(s.env) == envs.to_set().contains(s.env));
            assert(other.contains(s.env) == other.to_set().contains(s.env));
        }
        assert(service_in(envs) =~= service_in(other));
    }
}

/// The services shown for an application are exactly its services (by
/// name) whose environment is one of `envs`, in any place among them.
pub proof fn law_services_for_app(services: Seq<EcsService>, app: Seq<char>, envs: Seq<Env>)
    ensures
        forall|s: EcsService| #[trigger] services_where(services, of_app(app, envs)).contains(s) <==> (
        services.contains(s) && s.name@ == app && envs.contains(s.env)),
{
    lemma_services_where(services, of_app(app, envs));
}

/// The databases shown for an application are exactly those tagged with it
/// whose environment is one of `envs`, in any place among them; two lists of
/// the same environments give the same databases.
pub proof fn law_databases_for_app(dbs: Seq<RdsInstance>, app: Seq<char>, envs: Seq<Env>, other: Seq<Env>)
    ensures
        forall|d: RdsInstance| #[trigger] databases_where(dbs, db_of_app(app, envs)).contains(d) <==> (
        dbs.contains(d) && d.appname_tag@ == app && envs.contains(d.env)),
        envs.to_set() == other.to_set() ==> databases_where(dbs, db_of_app(app, envs))
            == databases_where(dbs, db_of_app(app, other)),
        (forall|i: int| 0 <= i < dbs.len() ==> (#[trigger] dbs[i]).appname_tag@ == app && envs.contains(
            dbs[i].env,
        )) ==> databases_where(dbs, db_of_app(app, envs)) == dbs,
{
    lemma_databases_where(dbs, db_of_app(app, envs));
    if forall|i: int| 0 <= i < dbs.len() ==> (#[trigger] dbs[i]).appname_tag@ == app && envs.contains(dbs[i].env) {
        lemma_databases_where_all(dbs, db_of_app(app, envs));
    }
    if envs.to_set() == other.to_set() {
        assert forall|d: RdsInstance| #[trigger] db_of_app(app, envs)(d) == db_of_app(app, other)(d) by {
            assert(envs.contains(d.env) == envs.to_set().contains(d.env));
            assert(other.contains(d.env) == other.to_set().contains(d.env));
        }
        assert(db_of_app(app, envs) =~= db_of_app(app, other));
    }
}

/// Listing the databases of the configured environments keeps exactly those
/// whose environment is one of `envs`.
pub proof fn law_databases_in_envs(dbs: Seq<RdsInstance>, envs: Seq<Env>)
    ensures
        forall|d: RdsInstance| #[trigger] databases_where(dbs, db_in(envs)).contains(d) <==> (
        dbs.contains(d) && envs.contains(d.env)),
{
    lemma_databases_where(dbs, db_in(envs));
}

/// Listing the clusters of the configured environments keeps exactly the
/// clusters whose environment is one of `envs`, whatever its place among
/// them; two lists of the same environments give the same clusters.
pub proof fn law_clusters_in_envs(clusters: Seq<Cluster>, envs: Seq<Env>, other: Seq<Env>)
    ensures
        forall|c: Cluster| #[trigger] clusters_where(clusters, cluster_in(envs)).contains(c) <==> (
        clusters.contains(c) && envs.contains(c.env)),
        envs.to_set() == other.to_set() ==> clusters_where(clusters, cluster_in(envs))
            == clusters_where(clusters, cluster_in(other)),
        (forall|i: int| 0 <= i < clusters.len() ==> envs.contains(#[trigger] clusters[i].env))
            ==> clusters_where(clusters, cluster_in(envs)) == clusters,
{
    lemma_clusters_where(clusters, cluster_in(envs));
    if forall|i: int| 0 <= i < clusters.len() ==> envs.contains(#[trigger] clusters[i].env) {
        lemma_clusters_where_all(clusters, cluster_in(envs));
    }
    if envs.to_set() == other.to_set() {
        assert forall|c: Cluster| #[trigger] cluster_in(envs)(c) == cluster_in(other)(c) by {
            assert(envs.contains(c.env) == envs.to_set().contains(c.env));
            assert(other.contains(c.env) == other.to_set().contains(c.env));
        }
        assert(cluster_in(envs) =~= cluster_in(other));
    }
}

} // verus!
