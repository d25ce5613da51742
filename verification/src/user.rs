//! The user's settings: the local port given to each proxied resource, the
//! preferences per profile, and the paths of tools and log dumps.
use vstd::prelude::*;
use crate::external::random_below;
use crate::shared::{CommandError, Env};
use crate::text::{
    chars_of, copy_opt, insert_unique, no_dups, opt_view, position_of, remove_text,
    replace_chars, replace_all, string_from, strs_of,
};

verus! {

broadcast use vstd::string::group_string_axioms;

/// The first port of the range for database proxies.
pub const RDS_PORT_START: u16 = 52000;
/// The end (exclusive) of the range for database proxies.
pub const RDS_PORT_END: u16 = 52100;
/// The first port of the range for service proxies.
pub const ECS_PORT_START: u16 = 53000;
/// The end (exclusive) of the range for service proxies.
pub const ECS_PORT_END: u16 = 53100;
/// The first port of the range for lambda application proxies.
pub const LAMBDA_PORT_START: u16 = 54000;
/// The end (exclusive) of the range for lambda application proxies.
pub const LAMBDA_PORT_END: u16 = 54100;
/// The first port of the range for cookie session proxies.
pub const COOKIE_SESSION_PORT_START: u16 = 55000;
/// The end (exclusive) of the range for cookie session proxies.
pub const COOKIE_SESSION_PORT_END: u16 = 55100;
/// The first port used when a range is full.
pub const FALLBACK_PORT_START: u16 = 58000;
/// The end (exclusive) of the fallback ports.
pub const FALLBACK_PORT_END: u16 = 59000;

/// The port assigned to `arn` in `m` (the first entry for it), if any.
pub open spec fn port_of(m: Seq<(Seq<char>, u16)>, arn: Seq<char>) -> Option<u16>
    decreases m.len(),
{
    if m.len() == 0 {
        None
    } else {
        match port_of(m.drop_last(), arn) {
            Some(p) => Some(p),
            None => if m.last().0 == arn {
                Some(m.last().1)
            } else {
                None
            },
        }
    }
}

/// Some entry of `m` holds port `p`.
pub open spec fn port_used(m: Seq<(Seq<char>, u16)>, p: int) -> bool {
    exists|i: int| 0 <= i < m.len() && m[i].1 == p
}

/// The `t`-th port tried in a range of `dist` ports from `start` when the
/// search starts `rotate` ports in, wrapping around.
pub open spec fn rotated_port(start: int, dist: int, rotate: int, t: int) -> int {
    start + (rotate + t) % dist
}

/// The first free port of the range, trying the ports from `start +
/// rotate` on and wrapping around, if any is free.
pub open spec fn first_free_rotated(m: Seq<(Seq<char>, u16)>, start: int, dist: int, rotate: int) -> Option<int> {
    if exists|t: int| 0 <= t < dist && !port_used(m, rotated_port(start, dist, rotate, t)) {
        let t = choose|t: int|
            0 <= t < dist && !port_used(m, rotated_port(start, dist, rotate, t)) && forall|u: int|
                0 <= u < t ==> port_used(m, rotated_port(start, dist, rotate, u));
        Some(rotated_port(start, dist, rotate, t))
    } else {
        None
    }
}

/// The lowest free fallback port, if any.
pub open spec fn first_free_fallback(m: Seq<(Seq<char>, u16)>) -> Option<int> {
    if exists|p: int| FALLBACK_PORT_START <= p < FALLBACK_PORT_END && !port_used(m, p) {
        Some(choose|p: int|
            FALLBACK_PORT_START <= p < FALLBACK_PORT_END && !port_used(m, p) && forall|q: int|
                FALLBACK_PORT_START <= q < p ==> port_used(m, q))
    } else {
        None
    }
}

/// The port a new resource is given: the first free one of its range
/// (searched from `rotate` on), else the lowest free fallback port.
pub open spec fn new_port(m: Seq<(Seq<char>, u16)>, start: int, end: int, rotate: int) -> Option<int> {
    match first_free_rotated(m, start, end - start, rotate) {
        Some(p) => Some(p),
        None => first_free_fallback(m),
    }
}

/// The view of a port map.
pub open spec fn port_map_view(m: Seq<(String, u16)>) -> Seq<(Seq<char>, u16)> {
    m.map_values(|e: (String, u16)| (e.0@, e.1))
}

fn find_port(m: &Vec<(String, u16)>, arn: &str) -> (r: Option<u16>)
    ensures
        r == port_of(port_map_view(m@), arn@),
{
    let ghost v = port_map_view(m@);
    let mut i: usize = 0;
    while i < m.len()
        invariant
            i <= m.len(),
            v == port_map_view(m@),
            port_of(v.take(i as int), arn@) is None,
        decreases m.len() - i,
    {
        assert(v.take(i + 1).drop_last() =~= v.take(i as int));
        assert(v.take(i + 1).last() == (m@[i as int].0@, m@[i as int].1));
        if m[i].0.as_str().to_owned() == arn.to_owned() {
            proof {
                lemma_port_of_prefix(v, i + 1);
            }
            return Some(m[i].1);
        }
        i = i + 1;
    }
    assert(v.take(m.len() as int) =~= v);
    None
}

proof fn lemma_port_of_prefix(m: Seq<(Seq<char>, u16)>, k: int)
    requires
        0 <= k <= m.len(),
    ensures
        forall|arn: Seq<char>| port_of(m.take(k), arn) is Some ==> port_of(m, arn) == port_of(m.take(k), arn),
    decreases m.len(),
{
    if k < m.len() {
        assert(m.drop_last().take(k) =~= m.take(k));
        lemma_port_of_prefix(m.drop_last(), k);
        assert forall|arn: Seq<char>| port_of(m.take(k), arn) is Some implies port_of(m, arn) == port_of(m.take(k), arn) by {
            assert(port_of(m.drop_last(), arn) == port_of(m.take(k), arn));
        }
    } else {
        assert(m.take(k) =~= m);
    }
}

fn port_is_used(m: &Vec<(String, u16)>, p: u16) -> (b: bool)
    ensures
        b == port_used(port_map_view(m@), p as int),
{
    let ghost v = port_map_view(m@);
    let mut i: usize = 0;
    while i < m.len()
        invariant
            i <= m.len(),
            v == port_map_view(m@),
            forall|j: int| 0 <= j < i ==> v[j].1 != p,
        decreases m.len() - i,
    {
        assert(v[i as int].1 == m@[i as int].1);
        if m[i].1 == p {
            return true;
        }
        i = i + 1;
    }
    false
}

fn first_free_in_range(m: &Vec<(String, u16)>, start: u16, dist: u16, rotate: u16) -> (r: Option<u16>)
    requires
        0 < dist,
        start + dist <= u16::MAX,
        rotate < dist,
    ensures
        match first_free_rotated(port_map_view(m@), start as int, dist as int, rotate as int) {
            Some(p) => r matches Some(x) && x as int == p,
            None => r is None,
        },
{
    let ghost v = port_map_view(m@);
    let mut t: u16 = 0;
    while t < dist
        invariant
            v == port_map_view(m@),
            0 < dist,
            start + dist <= u16::MAX,
            rotate < dist,
            t <= dist,
            forall|u: int| 0 <= u < t ==> port_used(v, rotated_port(start as int, dist as int, rotate as int, u)),
        decreases dist - t,
    {
        let off: u16 = ((rotate as u32 + t as u32) % (dist as u32)) as u16;
        let candidate: u16 = start + off;
        assert(candidate == rotated_port(start as int, dist as int, rotate as int, t as int));
        if !port_is_used(m, candidate) {
            assert(first_free_rotated(v, start as int, dist as int, rotate as int) == Some(candidate as int)) by {
                let tt = t as int;
                assert(0 <= tt < dist && !port_used(v, rotated_port(start as int, dist as int, rotate as int, tt)));
                let c = choose|c: int|
                    0 <= c < dist && !port_used(v, rotated_port(start as int, dist as int, rotate as int, c)) && forall|u: int|
                        0 <= u < c ==> port_used(v, rotated_port(start as int, dist as int, rotate as int, u));
                if c < tt {
                } else if c > tt {
                }
            }
            return Some(candidate);
        }
        t = t + 1;
    }
    None
}

fn first_free_fallback_port(m: &Vec<(String, u16)>) -> (r: Option<u16>)
    ensures
        match first_free_fallback(port_map_view(m@)) {
            Some(p) => r matches Some(x) && x as int == p,
            None => r is None,
        },
{
    let ghost v = port_map_view(m@);
    let mut q: u16 = FALLBACK_PORT_START;
    while q < FALLBACK_PORT_END
        invariant
            v == port_map_view(m@),
            FALLBACK_PORT_START <= q <= FALLBACK_PORT_END,
            forall|x: int| FALLBACK_PORT_START <= x < q ==> port_used(v, x),
        decreases FALLBACK_PORT_END - q,
    {
        if !port_is_used(m, q) {
            assert(first_free_fallback(v) == Some(q as int)) by {
                let c = choose|c: int|
                    FALLBACK_PORT_START <= c < FALLBACK_PORT_END && !port_used(v, c) && forall|x: int|
                        FALLBACK_PORT_START <= x < c ==> port_used(v, x);
                if c < q {
                } else if c > q {
                }
            }
            return Some(q);
        }
        q = q + 1;
    }
    None
}

/// The port of `arn` in `map`, and whether it is new: an existing entry is
/// kept; a new resource is given `new_port` (searching its range from
/// `rotate` on), recorded in the map. A new resource needs a free port.
#[verifier::rlimit(40)]
pub fn get_port(map: &mut Vec<(String, u16)>, arn: &str, start: u16, end: u16, rotate: u16) -> (r: (
    u16,
    bool,
))
    requires
        start < end,
        rotate < end - start,
        port_of(port_map_view(old(map)@), arn@) is Some || new_port(
            port_map_view(old(map)@),
            start as int,
            end as int,
            rotate as int,
        ) is Some,
    ensures
        match port_of(port_map_view(old(map)@), arn@) {
            Some(p) => r == (p, false) && final(map)@ == old(map)@,
            None => {
                &&& Some(r.0 as int) == new_port(
                    port_map_view(old(map)@),
                    start as int,
                    end as int,
                    rotate as int,
                )
                &&& r.1
                &&& port_map_view(final(map)@) == port_map_view(old(map)@).push((arn@, r.0))
            },
        },
        port_lookup(
            port_map_view(old(map)@),
            port_map_view(final(map)@),
            arn@,
            start as int,
            end as int,
            rotate as int,
            r.0,
        ),
        r.1 == port_of(port_map_view(old(map)@), arn@) is None,
{
    if let Some(port) = find_port(map, arn) {
        return (port, false);
    }
    let ghost v = port_map_view(map@);
    let dist = end - start;
    let assigned: u16 = match first_free_in_range(map, start, dist, rotate) {
        Some(p) => p,
        None => match first_free_fallback_port(map) {
            Some(p) => p,
            None => {
                proof {
                    assert(false);
                }
                0
            },
        },
    };
    let ghost av = arn@;
    map.push((arn.to_owned(), assigned));
    assert(port_map_view(map@) =~= v.push((av, assigned)));
    (assigned, true)
}


proof fn lemma_rotation_covers(start: int, dist: int, rotate: int, p: int)
    requires
        0 <= rotate < dist,
        start <= p < start + dist,
    ensures
        exists|t: int| 0 <= t < dist && #[trigger] rotated_port(start, dist, rotate, t) == p,
{
    let x = p - start;
    let t = if x >= rotate { x - rotate } else { x + dist - rotate };
    if x >= rotate {
        assert((rotate + t) % dist == x) by (nonlinear_arith)
            requires
                rotate + t == x,
                0 <= x < dist,
        ;
    } else {
        assert((rotate + t) % dist == x) by (nonlinear_arith)
            requires
                rotate + t == x + dist,
                0 <= x < dist,
        ;
    }
    assert(rotated_port(start, dist, rotate, t) == p);
}

/// A port can be had for `arn`: it has one already, or a port of its range
/// or of the fallback ports is free.
pub open spec fn port_available(m: Seq<(Seq<char>, u16)>, arn: Seq<char>, start: int, end: int) -> bool {
    ||| port_of(m, arn) is Some
    ||| exists|p: int| start <= p < end && !port_used(m, p)
    ||| first_free_fallback(m) is Some
}

proof fn lemma_port_available(m: Seq<(Seq<char>, u16)>, arn: Seq<char>, start: int, end: int, rotate: int)
    requires
        port_available(m, arn, start, end),
        0 <= rotate < end - start,
    ensures
        port_of(m, arn) is Some || new_port(m, start, end, rotate) is Some,
{
    if exists|p: int| start <= p < end && !port_used(m, p) {
        let p = choose|p: int| start <= p < end && !port_used(m, p);
        let dist = end - start;
        lemma_rotation_covers(start, dist, rotate, p);
        let t = choose|t: int| 0 <= t < dist && #[trigger] rotated_port(start, dist, rotate, t) == p;
        assert(!port_used(m, rotated_port(start, dist, rotate, t)));
    }
}

/// Whether a port can be had for `arn` (see `port_available`): it has one
/// in `map`, or a port of `start..end` or a fallback port is free.
pub fn port_free(map: &Vec<(String, u16)>, arn: &str, start: u16, end: u16) -> (r: bool)
    ensures
        r == port_available(port_map_view(map@), arn@, start as int, end as int),
{
    let ghost v = port_map_view(map@);
    if find_port(map, arn).is_some() {
        return true;
    }
    let mut q: u16 = start;
    while q < end
        invariant
            v == port_map_view(map@),
            start <= q,
            q <= end || end <= start,
            forall|x: int| start <= x < q ==> port_used(v, x),
        decreases end - q,
    {
        if !port_is_used(map, q) {
            return true;
        }
        q = q + 1;
    }
    assert(!exists|p: int| start <= p < end && !port_used(v, p));
    first_free_fallback_port(map).is_some()
}

/// What a port lookup does to the map for some draw `rotate` of the
/// starting point: an assigned port is returned as is; a new resource gets
/// `new_port` and is recorded.
pub open spec fn port_lookup(
    before: Seq<(Seq<char>, u16)>,
    after: Seq<(Seq<char>, u16)>,
    arn: Seq<char>,
    start: int,
    end: int,
    rotate: int,
    port: u16,
) -> bool {
    match port_of(before, arn) {
        Some(p) => port == p && after == before,
        None => Some(port as int) == new_port(before, start, end, rotate) && after == before.push(
            (arn, port),
        ),
    }
}

/// The preferences of the user for one Wombat profile.
#[derive(Clone, Debug)]
pub struct WombatAwsProfilePreferences {
    pub tracked_names: Vec<String>,
    pub preferred_environments: Vec<Env>,
}

/// The contents of a `WombatAwsProfilePreferences`.
pub struct PreferencesView {
    pub tracked_names: Seq<Seq<char>>,
    pub preferred_environments: Seq<Env>,
}

impl View for WombatAwsProfilePreferences {
    type V = PreferencesView;

    open spec fn view(&self) -> PreferencesView {
        PreferencesView {
            tracked_names: strs_of(self.tracked_names@),
            preferred_environments: self.preferred_environments@,
        }
    }
}

/// The user's settings. Ports are kept per resource ARN; preferences per
/// Wombat profile name; paths as text.
#[derive(Clone, Debug)]
pub struct UserConfig {
    pub id: String,
    pub version: i8,
    pub last_used_profile: Option<String>,
    pub arn_to_proxy_port_map: Vec<(String, u16)>,
    pub dbeaver_path: Option<String>,
    pub logs_dir: String,
    pub preferences: Vec<(String, WombatAwsProfilePreferences)>,
}

/// The contents of a `UserConfig`.
pub struct UserConfigView {
    pub id: Seq<char>,
    pub version: i8,
    pub last_used_profile: Option<Seq<char>>,
    pub ports: Seq<(Seq<char>, u16)>,
    pub dbeaver_path: Option<Seq<char>>,
    pub logs_dir: Seq<char>,
    pub preferences: Seq<(Seq<char>, PreferencesView)>,
}

/// The view of the preferences of a configuration.
pub open spec fn prefs_view(v: Seq<(String, WombatAwsProfilePreferences)>) -> Seq<(Seq<char>, PreferencesView)> {
    v.map_values(|e: (String, WombatAwsProfilePreferences)| (e.0@, e.1@))
}

impl View for UserConfig {
    type V = UserConfigView;

    open spec fn view(&self) -> UserConfigView {
        UserConfigView {
            id: self.id@,
            version: self.version,
            last_used_profile: opt_view(self.last_used_profile),
            ports: port_map_view(self.arn_to_proxy_port_map@),
            dbeaver_path: opt_view(self.dbeaver_path),
            logs_dir: self.logs_dir@,
            preferences: prefs_view(self.preferences@),
        }
    }
}

/// The position of the first preferences of profile `name`, or -1.
pub open spec fn pref_slot(ps: Seq<(Seq<char>, PreferencesView)>, name: Seq<char>) -> int
    decreases ps.len(),
{
    if ps.len() == 0 {
        -1
    } else {
        let k = pref_slot(ps.drop_last(), name);
        if k >= 0 {
            k
        } else if ps.last().0 == name {
            ps.len() - 1
        } else {
            -1
        }
    }
}

proof fn lemma_pref_slot(ps: Seq<(Seq<char>, PreferencesView)>, name: Seq<char>)
    ensures
        -1 <= pref_slot(ps, name) < ps.len(),
        pref_slot(ps, name) >= 0 ==> ps[pref_slot(ps, name)].0 == name,
        forall|i: int| 0 <= i < ps.len() && (pref_slot(ps, name) < 0 || i < pref_slot(ps, name)) ==> ps[i].0 != name,
    decreases ps.len(),
{
    if ps.len() > 0 {
        lemma_pref_slot(ps.drop_last(), name);
        let k = pref_slot(ps.drop_last(), name);
        if k >= 0 {
            assert(ps[k] == ps.drop_last()[k]);
        }
        assert forall|i: int| 0 <= i < ps.len() && (pref_slot(ps, name) < 0 || i < pref_slot(ps, name)) implies ps[i].0 != name by {
            if i < ps.len() - 1 {
                assert(ps[i] == ps.drop_last()[i]);
            }
        }
    }
}

fn find_pref(ps: &Vec<(String, WombatAwsProfilePreferences)>, name: &str) -> (k: Option<usize>)
    ensures
        match k {
            Some(k) => k < ps.len() && k as int == pref_slot(prefs_view(ps@), name@),
            None => pref_slot(prefs_view(ps@), name@) < 0,
        },
{
    let ghost v = prefs_view(ps@);
    proof {
        lemma_pref_slot(v, name@);
    }
    let mut i: usize = 0;
    while i < ps.len()
        invariant
            i <= ps.len(),
            v == prefs_view(ps@),
            -1 <= pref_slot(v, name@) < v.len(),
            pref_slot(v, name@) >= 0 ==> v[pref_slot(v, name@)].0 == name@,
            forall|j: int| 0 <= j < v.len() && (pref_slot(v, name@) < 0 || j < pref_slot(v, name@)) ==> v[j].0 != name@,
            forall|j: int| 0 <= j < i ==> v[j].0 != name@,
        decreases ps.len() - i,
    {
        assert(v[i as int].0 == ps@[i as int].0@);
        if ps[i].0.as_str().to_owned() == name.to_owned() {
            assert(pref_slot(v, name@) == i);
            return Some(i);
        }
        i = i + 1;
    }
    None
}

fn copy_strings(v: &Vec<String>) -> (r: Vec<String>)
    ensures
        r@ == v@,
{
    let mut r: Vec<String> = Vec::new();
    let mut i: usize = 0;
    while i < v.len()
        invariant
            i <= v.len(),
            r@ == v@.take(i as int),
        decreases v.len() - i,
    {
        r.push(v[i].clone());
        assert(r@ =~= v@.take(i + 1));
        i = i + 1;
    }
    assert(v@.take(i as int) =~= v@);
    r
}

fn copy_envs(v: &Vec<Env>) -> (r: Vec<Env>)
    ensures
        r@ == v@,
{
    let mut r: Vec<Env> = Vec::new();
    let mut i: usize = 0;
    while i < v.len()
        invariant
            i <= v.len(),
            r@ == v@.take(i as int),
        decreases v.len() - i,
    {
        r.push(v[i]);
        assert(r@ =~= v@.take(i + 1));
        i = i + 1;
    }
    assert(v@.take(i as int) =~= v@);
    r
}

/// The tracked names with `name` toggled: removed where present, added
/// where absent.
pub open spec fn toggled(names: Set<Seq<char>>, name: Seq<char>) -> Set<Seq<char>> {
    if names.contains(name) {
        names.remove(name)
    } else {
        names.insert(name)
    }
}

/// Marking a favourite twice undoes it: toggling the same name twice gives
/// back the favourites as they were; toggling adds a name that was not
/// there and removes one that was.
pub proof fn law_favorite_twice_restores(names: Set<Seq<char>>, name: Seq<char>)
    ensures
        toggled(toggled(names, name), name) == names,
        toggled(names, name).contains(name) == !names.contains(name),
        forall|other: Seq<char>| other != name ==> toggled(names, name).contains(other) == names.contains(other),
{
    assert(toggled(toggled(names, name), name) =~= names);
}

impl UserConfig {
    /// A fresh configuration with identifier `id` and log dump directory
    /// `logs_dir`: version 1, no profile used yet, no ports, no DBeaver, no
    /// preferences.
    pub fn fresh(id: String, logs_dir: String) -> (c: UserConfig)
        ensures
            c.id == id,
            c.logs_dir == logs_dir,
            c.version == 1,
            c.last_used_profile is None,
            c.arn_to_proxy_port_map@.len() == 0,
            c.dbeaver_path is None,
            c.preferences@.len() == 0,
    {
        UserConfig {
            id,
            version: 1,
            last_used_profile: None,
            arn_to_proxy_port_map: Vec::new(),
            dbeaver_path: None,
            logs_dir,
            preferences: Vec::new(),
        }
    }

    /// A copy of the configuration.
    pub fn duplicate(&self) -> (c: UserConfig)
        ensures
            c@ == self@,
    {
        let mut ports: Vec<(String, u16)> = Vec::new();
        let mut i: usize = 0;
        while i < self.arn_to_proxy_port_map.len()
            invariant
                i <= self.arn_to_proxy_port_map.len(),
                port_map_view(ports@) == port_map_view(self.arn_to_proxy_port_map@).take(i as int),
            decreases self.arn_to_proxy_port_map.len() - i,
        {
            let e = &self.arn_to_proxy_port_map[i];
            let ghost prev = port_map_view(ports@);
            ports.push((e.0.clone(), e.1));
            assert(port_map_view(ports@) =~= prev.push((e.0@, e.1)));
            assert(port_map_view(self.arn_to_proxy_port_map@).take(i + 1) =~= port_map_view(
                self.arn_to_proxy_port_map@,
            ).take(i as int).push((e.0@, e.1)));
            i = i + 1;
        }
        assert(port_map_view(self.arn_to_proxy_port_map@).take(i as int) =~= port_map_view(
            self.arn_to_proxy_port_map@,
        ));
        let mut prefs: Vec<(String, WombatAwsProfilePreferences)> = Vec::new();
        let mut j: usize = 0;
        while j < self.preferences.len()
            invariant
                j <= self.preferences.len(),
                prefs_view(prefs@) == prefs_view(self.preferences@).take(j as int),
            decreases self.preferences.len() - j,
        {
            let e = &self.preferences[j];
            let p = WombatAwsProfilePreferences {
                tracked_names: copy_strings(&e.1.tracked_names),
                preferred_environments: copy_envs(&e.1.preferred_environments),
            };
            let ghost prev = prefs_view(prefs@);
            let ghost pv = (e.0@, e.1@);
            prefs.push((e.0.clone(), p));
            assert(prefs_view(prefs@) =~= prev.push(pv));
            assert(prefs_view(self.preferences@).take(j + 1) =~= prefs_view(self.preferences@).take(
                j as int,
            ).push(pv));
            j = j + 1;
        }
        assert(prefs_view(self.preferences@).take(j as int) =~= prefs_view(self.preferences@));
        UserConfig {
            id: self.id.clone(),
            version: self.version,
            last_used_profile: copy_opt(&self.last_used_profile),
            arn_to_proxy_port_map: ports,
            dbeaver_path: copy_opt(&self.dbeaver_path),
            logs_dir: self.logs_dir.clone(),
            preferences: prefs,
        }
    }

    fn port_in_range(&mut self, arn: &str, start: u16, end: u16) -> (port: u16)
        requires
            start < end,
            port_available(port_map_view(old(self).arn_to_proxy_port_map@), arn@, start as int, end as int),
        ensures
            exists|rotate: int|
                0 <= rotate < end - start && port_lookup(
                    port_map_view(old(self).arn_to_proxy_port_map@),
                    port_map_view(final(self).arn_to_proxy_port_map@),
                    arn@,
                    start as int,
                    end as int,
                    rotate,
                    port,
                ),
            final(self)@ == (UserConfigView { ports: final(self)@.ports, ..old(self)@ }),
    {
        let rotate = random_below(end - start);
        proof {
            lemma_port_available(
                port_map_view(self.arn_to_proxy_port_map@),
                arn@,
                start as int,
                end as int,
                rotate as int,
            );
        }
        let (port, _) = get_port(&mut self.arn_to_proxy_port_map, arn, start, end, rotate);
        assert(port_lookup(
            port_map_view(old(self).arn_to_proxy_port_map@),
            port_map_view(self.arn_to_proxy_port_map@),
            arn@,
            start as int,
            end as int,
            rotate as int,
            port,
        ));
        port
    }

    /// The local port of the database proxy of `db_arn` (see `port_lookup`;
    /// range 52000..52100).
    pub fn get_db_port(&mut self, db_arn: &str) -> (port: u16)
        requires
            port_available(port_map_view(old(self).arn_to_proxy_port_map@), db_arn@, RDS_PORT_START as int, RDS_PORT_END as int),
        ensures
            exists|rotate: int|
                0 <= rotate < RDS_PORT_END - RDS_PORT_START && port_lookup(
                    port_map_view(old(self).arn_to_proxy_port_map@),
                    port_map_view(final(self).arn_to_proxy_port_map@),
                    db_arn@,
                    RDS_PORT_START as int,
                    RDS_PORT_END as int,
                    rotate,
                    port,
                ),
            final(self)@ == (UserConfigView { ports: final(self)@.ports, ..old(self)@ }),
    {
        self.port_in_range(db_arn, RDS_PORT_START, RDS_PORT_END)
    }

    /// The local port of the service proxy of `ecs_arn` (range
    /// 53000..53100).
    pub fn get_service_port(&mut self, ecs_arn: &str) -> (port: u16)
        requires
            port_available(port_map_view(old(self).arn_to_proxy_port_map@), ecs_arn@, ECS_PORT_START as int, ECS_PORT_END as int),
        ensures
            exists|rotate: int|
                0 <= rotate < ECS_PORT_END - ECS_PORT_START && port_lookup(
                    port_map_view(old(self).arn_to_proxy_port_map@),
                    port_map_view(final(self).arn_to_proxy_port_map@),
                    ecs_arn@,
                    ECS_PORT_START as int,
                    ECS_PORT_END as int,
                    rotate,
                    port,
                ),
            final(self)@ == (UserConfigView { ports: final(self)@.ports, ..old(self)@ }),
    {
        self.port_in_range(ecs_arn, ECS_PORT_START, ECS_PORT_END)
    }

    /// The local port of the lambda application proxy of `lambda_arn`
    /// (range 54000..54100).
    pub fn get_lambda_app_port(&mut self, lambda_arn: &str) -> (port: u16)
        requires
            port_available(port_map_view(old(self).arn_to_proxy_port_map@), lambda_arn@, LAMBDA_PORT_START as int, LAMBDA_PORT_END as int),
        ensures
            exists|rotate: int|
                0 <= rotate < LAMBDA_PORT_END - LAMBDA_PORT_START && port_lookup(
                    port_map_view(old(self).arn_to_proxy_port_map@),
                    port_map_view(final(self).arn_to_proxy_port_map@),
                    lambda_arn@,
                    LAMBDA_PORT_START as int,
                    LAMBDA_PORT_END as int,
                    rotate,
                    port,
                ),
            final(self)@ == (UserConfigView { ports: final(self)@.ports, ..old(self)@ }),
    {
        self.port_in_range(lambda_arn, LAMBDA_PORT_START, LAMBDA_PORT_END)
    }

    /// The local port of the cookie session proxy of `user_session_arn`
    /// (range 55000..55100).
    pub fn get_user_session_proxy_port(&mut self, user_session_arn: &str) -> (port: u16)
        requires
            port_available(port_map_view(old(self).arn_to_proxy_port_map@), user_session_arn@, COOKIE_SESSION_PORT_START as int, COOKIE_SESSION_PORT_END as int),
        ensures
            exists|rotate: int|
                0 <= rotate < COOKIE_SESSION_PORT_END - COOKIE_SESSION_PORT_START && port_lookup(
                    port_map_view(old(self).arn_to_proxy_port_map@),
                    port_map_view(final(self).arn_to_proxy_port_map@),
                    user_session_arn@,
                    COOKIE_SESSION_PORT_START as int,
                    COOKIE_SESSION_PORT_END as int,
                    rotate,
                    port,
                ),
            final(self)@ == (UserConfigView { ports: final(self)@.ports, ..old(self)@ }),
    {
        self.port_in_range(user_session_arn, COOKIE_SESSION_PORT_START, COOKIE_SESSION_PORT_END)
    }
}


impl UserConfig {
    /// Stores `envs` as the preferred environments of profile
    /// `profile_name`, which must have preferences, and answers the
    /// configuration.
    pub fn save_preferred_envs(&mut self, profile_name: &str, envs: Vec<Env>) -> (r: Result<
        UserConfig,
        CommandError,
    >)
        requires
            pref_slot(old(self)@.preferences, profile_name@) >= 0,
        ensures
            ({
                let k = pref_slot(old(self)@.preferences, profile_name@);
                final(self)@ == (UserConfigView {
                    preferences: old(self)@.preferences.update(
                        k,
                        (
                            profile_name@,
                            PreferencesView {
                                preferred_environments: envs@,
                                ..old(self)@.preferences[k].1
                            },
                        ),
                    ),
                    ..old(self)@
                })
            }),
            r matches Ok(c) && c@ == final(self)@,
    {
        let k = find_pref(&self.preferences, profile_name).unwrap();
        let ghost before = prefs_view(self.preferences@);
        proof {
            lemma_pref_slot(before, profile_name@);
        }
        assert(before[k as int] == (self.preferences@[k as int].0@, self.preferences@[k as int].1@));
        let name = self.preferences[k].0.clone();
        let pref = WombatAwsProfilePreferences {
            tracked_names: copy_strings(&self.preferences[k].1.tracked_names),
            preferred_environments: envs,
        };
        self.preferences.set(k, (name, pref));
        assert(prefs_view(self.preferences@) =~= before.update(
            k as int,
            (profile_name@, PreferencesView { preferred_environments: envs@, ..before[k as int].1 }),
        ));
        Ok(self.duplicate())
    }

    /// Records that the user signed in with `profile`; a profile seen for
    /// the first time gets preferences made of `envs` and `tracked_names`.
    pub fn use_profile(&mut self, profile: &str, envs: Vec<Env>, tracked_names: Vec<String>)
        ensures
            final(self)@ == (UserConfigView {
                last_used_profile: Some(profile@),
                preferences: if pref_slot(old(self)@.preferences, profile@) >= 0 {
                    old(self)@.preferences
                } else {
                    old(self)@.preferences.push(
                        (
                            profile@,
                            PreferencesView {
                                tracked_names: strs_of(tracked_names@),
                                preferred_environments: envs@,
                            },
                        ),
                    )
                },
                ..old(self)@
            }),
    {
        self.last_used_profile = Some(profile.to_owned());
        if find_pref(&self.preferences, profile).is_none() {
            let ghost before = prefs_view(self.preferences@);
            let ghost pv = PreferencesView {
                tracked_names: strs_of(tracked_names@),
                preferred_environments: envs@,
            };
            self.preferences.push(
                (
                    profile.to_owned(),
                    WombatAwsProfilePreferences { tracked_names, preferred_environments: envs },
                ),
            );
            assert(prefs_view(self.preferences@) =~= before.push((profile@, pv)));
        }
    }

    /// Toggles `tracked_name` among the favourites of profile
    /// `profile_name`, which must have preferences, and answers the
    /// configuration.
    pub fn favorite(&mut self, profile_name: &str, tracked_name: String) -> (r: Result<
        UserConfig,
        CommandError,
    >)
        requires
            pref_slot(old(self)@.preferences, profile_name@) >= 0,
        ensures
            ({
                let k = pref_slot(old(self)@.preferences, profile_name@);
                let before = old(self)@.preferences[k].1;
                let after = final(self)@.preferences[k].1;
                &&& final(self)@ == (UserConfigView { preferences: final(self)@.preferences, ..old(self)@ })
                &&& final(self)@.preferences.len() == old(self)@.preferences.len()
                &&& forall|i: int| 0 <= i < old(self)@.preferences.len() && i != k ==> final(self)@.preferences[i] == old(self)@.preferences[i]
                &&& final(self)@.preferences[k].0 == profile_name@
                &&& after.preferred_environments == before.preferred_environments
                &&& after.tracked_names.to_set() == toggled(before.tracked_names.to_set(), tracked_name@)
                &&& no_dups(before.tracked_names) ==> no_dups(after.tracked_names)
            }),
            r matches Ok(c) && c@ == final(self)@,
    {
        let k = find_pref(&self.preferences, profile_name).unwrap();
        let ghost before_all = prefs_view(self.preferences@);
        proof {
            lemma_pref_slot(before_all, profile_name@);
        }
        assert(before_all[k as int] == (self.preferences@[k as int].0@, self.preferences@[k as int].1@));
        let name = self.preferences[k].0.clone();
        let mut pref = WombatAwsProfilePreferences {
            tracked_names: copy_strings(&self.preferences[k].1.tracked_names),
            preferred_environments: copy_envs(&self.preferences[k].1.preferred_environments),
        };
        let ghost names = strs_of(pref.tracked_names@);
        match position_of(&pref.tracked_names, tracked_name.as_str()) {
            Some(i) => {
                assert(names[i as int] == tracked_name@);
                assert(names.to_set().contains(tracked_name@));
                pref.tracked_names = remove_text(&pref.tracked_names, tracked_name.as_str());
            },
            None => {
                assert(!names.to_set().contains(tracked_name@));
                insert_unique(&mut pref.tracked_names, tracked_name);
            },
        }
        let ghost pv = pref@;
        let ghost nv = name@;
        self.preferences.set(k, (name, pref));
        assert(prefs_view(self.preferences@) =~= before_all.update(k as int, (nv, pv)));
        Ok(self.duplicate())
    }
}


/// Where DBeaver lives on macOS.
pub open spec fn mac_dbeaver() -> Seq<char> {
    "/Applications/DBeaver.app/Contents/MacOS/dbeaver"@
}

/// Where DBeaver lives on Windows.
pub open spec fn windows_dbeaver() -> Seq<char> {
    "C:\\Program Files\\DBeaver\\dbeaver.exe"@
}

/// A version 4 configuration file rewritten for version 5: the keys
/// `"preffered_environments"` and `"verson"` renamed.
pub open spec fn migrated_v4(content: Seq<char>) -> Seq<char> {
    replace_all(
        replace_all(content, "\"preffered_environments\""@, "\"preferred_environments\""@),
        "\"verson\""@,
        "\"version\""@,
    )
}

/// Rewrites a version 4 configuration file for version 5.
pub fn migrate_v4_content(content: &str) -> (r: String)
    ensures
        r@ == migrated_v4(content@),
{
    let c = chars_of(content);
    let from1 = chars_of("\"preffered_environments\"");
    let to1 = chars_of("\"preferred_environments\"");
    let from2 = chars_of("\"verson\"");
    let to2 = chars_of("\"version\"");
    proof {
        reveal_strlit("\"preffered_environments\"");
        reveal_strlit("\"verson\"");
    }
    let step = replace_chars(&c, &from1, &to1);
    let done = replace_chars(&step, &from2, &to2);
    string_from(&done)
}

/// The DBeaver to use: the configured one while it exists, else the one at
/// the usual place on macOS, else on Windows, where it exists.
pub fn recheck_dbeaver_path(
    configured_path: Option<String>,
    configured_exists: bool,
    mac_exists: bool,
    windows_exists: bool,
) -> (r: Option<String>)
    ensures
        opt_view(r) == (if configured_path is Some && configured_exists {
            opt_view(configured_path)
        } else if mac_exists {
            Some(mac_dbeaver())
        } else if windows_exists {
            Some(windows_dbeaver())
        } else {
            None
        }),
{
    if let Some(path) = configured_path {
        if configured_exists {
            return Some(path);
        }
    }
    if mac_exists {
        return Some("/Applications/DBeaver.app/Contents/MacOS/dbeaver".to_string());
    }
    if windows_exists {
        return Some("C:\\Program Files\\DBeaver\\dbeaver.exe".to_string());
    }
    None
}

impl UserConfig {
    /// Sets the path of DBeaver where the path exists, and answers the
    /// configuration; else an `Invalid path!` error of `set_dbeaver_path`.
    pub fn set_dbeaver_path(&mut self, dbeaver_path: &str, path_exists: bool) -> (r: Result<
        UserConfig,
        CommandError,
    >)
        ensures
            path_exists ==> final(self)@ == (UserConfigView {
                dbeaver_path: Some(dbeaver_path@),
                ..old(self)@
            }) && (r matches Ok(c) && c@ == final(self)@),
            !path_exists ==> final(self)@ == old(self)@ && (r matches Err(e) && e.command@
                == "set_dbeaver_path"@ && e.message@ == "Invalid path!"@),
    {
        if path_exists {
            self.dbeaver_path = Some(dbeaver_path.to_owned());
            Ok(self.duplicate())
        } else {
            Err(CommandError::new("set_dbeaver_path", "Invalid path!".to_string()))
        }
    }

    /// Sets the directory of log dumps once it could be created
    /// (`created`), and answers the configuration; else an `Invalid path!`
    /// error of `set_logs_path` with the reason.
    pub fn set_logs_path(&mut self, logs_dir_path: &str, created: Result<(), String>) -> (r: Result<
        UserConfig,
        CommandError,
    >)
        ensures
            created is Ok ==> final(self)@ == (UserConfigView { logs_dir: logs_dir_path@, ..old(self)@ })
                && (r matches Ok(c) && c@ == final(self)@),
            created matches Err(msg) ==> (final(self)@ == old(self)@ && (r matches Err(e)
                && e.command@ == "set_logs_path"@ && e.message@ == "Invalid path! "@ + msg@)),
    {
        match created {
            Err(msg) => {
                let mut text = chars_of("Invalid path! ");
                crate::text::push_all(&mut text, &chars_of(msg.as_str()));
                Err(CommandError::new("set_logs_path", string_from(&text)))
            },
            Ok(()) => {
                self.logs_dir = logs_dir_path.to_owned();
                Ok(self.duplicate())
            },
        }
    }
}

/// No two entries of a port map share a port.
pub open spec fn ports_distinct(m: Seq<(Seq<char>, u16)>) -> bool {
    forall|i: int, j: int| 0 <= i < j < m.len() ==> m[i].1 != m[j].1
}

proof fn lemma_port_of_push(m: Seq<(Seq<char>, u16)>, arn: Seq<char>, p: u16)
    requires
        port_of(m, arn) is None,
    ensures
        port_of(m.push((arn, p)), arn) == Some(p),
{
    assert(m.push((arn, p)).drop_last() =~= m);
}

proof fn lemma_new_port_free(m: Seq<(Seq<char>, u16)>, start: int, end: int, rotate: int)
    requires
        start < end,
    ensures
        new_port(m, start, end, rotate) matches Some(p) ==> !port_used(m, p),
{
    let dist = end - start;
    if exists|t: int| 0 <= t < dist && !port_used(m, rotated_port(start, dist, rotate, t)) {
        let t0 = choose|t: int| 0 <= t < dist && !port_used(m, rotated_port(start, dist, rotate, t));
        assert(exists|t: int|
            0 <= t < dist && !port_used(m, rotated_port(start, dist, rotate, t)) && forall|u: int|
                0 <= u < t ==> port_used(m, rotated_port(start, dist, rotate, u))) by {
            lemma_least_free(m, start, dist, rotate, t0);
        }
    } else if exists|q: int| FALLBACK_PORT_START <= q < FALLBACK_PORT_END && !port_used(m, q) {
        let q0 = choose|q: int| FALLBACK_PORT_START <= q < FALLBACK_PORT_END && !port_used(m, q);
        assert(exists|q: int|
            FALLBACK_PORT_START <= q < FALLBACK_PORT_END && !port_used(m, q) && forall|x: int|
                FALLBACK_PORT_START <= x < q ==> port_used(m, x)) by {
            lemma_least_free_fallback(m, q0);
        }
    }
}

proof fn lemma_least_free(m: Seq<(Seq<char>, u16)>, start: int, dist: int, rotate: int, t: int)
    requires
        0 <= t < dist,
        !port_used(m, rotated_port(start, dist, rotate, t)),
    ensures
        exists|c: int|
            0 <= c < dist && !port_used(m, rotated_port(start, dist, rotate, c)) && forall|u: int|
                0 <= u < c ==> port_used(m, rotated_port(start, dist, rotate, u)),
    decreases t,
{
    if exists|u: int| 0 <= u < t && !port_used(m, rotated_port(start, dist, rotate, u)) {
        let u = choose|u: int| 0 <= u < t && !port_used(m, rotated_port(start, dist, rotate, u));
        lemma_least_free(m, start, dist, rotate, u);
    } else {
        assert(forall|u: int| 0 <= u < t ==> port_used(m, rotated_port(start, dist, rotate, u)));
    }
}

proof fn lemma_least_free_fallback(m: Seq<(Seq<char>, u16)>, q: int)
    requires
        FALLBACK_PORT_START <= q < FALLBACK_PORT_END,
        !port_used(m, q),
    ensures
        exists|c: int|
            FALLBACK_PORT_START <= c < FALLBACK_PORT_END && !port_used(m, c) && forall|x: int|
                FALLBACK_PORT_START <= x < c ==> port_used(m, x),
    decreases q,
{
    if exists|x: int| FALLBACK_PORT_START <= x < q && !port_used(m, x) {
        let x = choose|x: int| FALLBACK_PORT_START <= x < q && !port_used(m, x);
        lemma_least_free_fallback(m, x);
    } else {
        assert(forall|x: int| FALLBACK_PORT_START <= x < q ==> port_used(m, x));
    }
}

/// A resource keeps its port: asking twice for the port of the same ARN
/// answers the same port, and the second request leaves the map as it was.
pub proof fn law_port_stable(
    m0: Seq<(Seq<char>, u16)>,
    m1: Seq<(Seq<char>, u16)>,
    m2: Seq<(Seq<char>, u16)>,
    arn: Seq<char>,
    start: int,
    end: int,
    rotate1: int,
    rotate2: int,
    p1: u16,
    p2: u16,
)
    requires
        port_lookup(m0, m1, arn, start, end, rotate1, p1),
        port_lookup(m1, m2, arn, start, end, rotate2, p2),
    ensures
        port_of(m1, arn) == Some(p1),
        p1 == p2,
        m2 == m1,
{
    if port_of(m0, arn) is None {
        lemma_port_of_push(m0, arn, p1);
    }
}

/// Where a new resource's port comes from: no resource holds it; it is a
/// port of the resource's range whenever one of those is free, and
/// otherwise the lowest free fallback port (none where all are taken).
pub proof fn law_new_port_placement(m: Seq<(Seq<char>, u16)>, start: int, end: int, rotate: int)
    requires
        0 <= rotate < end - start,
    ensures
        new_port(m, start, end, rotate) matches Some(p) ==> !port_used(m, p),
        (exists|p: int| start <= p < end && !port_used(m, p)) ==> (new_port(
            m,
            start,
            end,
            rotate,
        ) matches Some(p) && start <= p < end),
        !(exists|p: int| start <= p < end && !port_used(m, p)) ==> new_port(m, start, end, rotate)
            == first_free_fallback(m),
        first_free_fallback(m) matches Some(p) ==> FALLBACK_PORT_START <= p < FALLBACK_PORT_END
            && !port_used(m, p) && forall|q: int| FALLBACK_PORT_START <= q < p ==> port_used(m, q),
{
    let dist = end - start;
    lemma_new_port_free(m, start, end, rotate);
    if exists|q: int| FALLBACK_PORT_START <= q < FALLBACK_PORT_END && !port_used(m, q) {
        let q0 = choose|q: int| FALLBACK_PORT_START <= q < FALLBACK_PORT_END && !port_used(m, q);
        lemma_least_free_fallback(m, q0);
    }
    if exists|p: int| start <= p < end && !port_used(m, p) {
        let p = choose|p: int| start <= p < end && !port_used(m, p);
        lemma_rotation_covers(start, dist, rotate, p);
        let t = choose|t: int| 0 <= t < dist && #[trigger] rotated_port(start, dist, rotate, t) == p;
        lemma_least_free(m, start, dist, rotate, t);
        let c = choose|c: int|
            0 <= c < dist && !port_used(m, rotated_port(start, dist, rotate, c)) && forall|u: int|
                0 <= u < c ==> port_used(m, rotated_port(start, dist, rotate, u));
        assert(0 <= (rotate + c) % dist < dist) by (nonlinear_arith)
            requires
                dist > 0,
        ;
    } else {
        if exists|t: int| 0 <= t < dist && !port_used(m, rotated_port(start, dist, rotate, t)) {
            let t = choose|t: int| 0 <= t < dist && !port_used(m, rotated_port(start, dist, rotate, t));
            assert(0 <= (rotate + t) % dist < dist) by (nonlinear_arith)
                requires
                    dist > 0,
            ;
            assert(start <= rotated_port(start, dist, rotate, t) < end);
        }
    }
}

/// No two resources share a port: a lookup keeps the ports of a map
/// distinct, since a new resource only ever gets a port that is free.
pub proof fn law_ports_distinct(
    m0: Seq<(Seq<char>, u16)>,
    m1: Seq<(Seq<char>, u16)>,
    arn: Seq<char>,
    start: int,
    end: int,
    rotate: int,
    port: u16,
)
    requires
        start < end,
        ports_distinct(m0),
        port_lookup(m0, m1, arn, start, end, rotate, port),
    ensures
        ports_distinct(m1),
{
    if port_of(m0, arn) is None {
        lemma_new_port_free(m0, start, end, rotate);
        assert forall|i: int, j: int| 0 <= i < j < m1.len() implies m1[i].1 != m1[j].1 by {
            if j == m0.len() {
                assert(m1[i] == m0[i]);
                assert(!port_used(m0, port as int));
            } else {
                assert(m1[i] == m0[i] && m1[j] == m0[j]);
            }
        }
    }
}

} // verus!
