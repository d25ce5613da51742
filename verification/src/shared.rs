//! Environments, AWS resource names, browser-extension and cookie state.
use vstd::prelude::*;
use crate::external::{now_millis, regex_capture, regex_group};
use crate::text::{
    before_first, before_first_from, chars_of, has_infix, has_prefix, lemma_split_char_concat,
    lemma_split_char_pieces, lemma_split_char_whole, lemma_split_join, join_on, join_with, last_piece, push_all,
    occurs_at, opt_view, parse_u32, parse_u32_chars, same_chars, seqs_of, split_char, split_on,
    starts_with, string_from,
};

verus! {

broadcast use vstd::string::group_string_axioms;

/// The deployment environment a resource belongs to.
#[derive(Clone, Copy, Debug, PartialEq, Eq, Structural, Hash)]
#[allow(clippy::upper_case_acronyms)]
pub enum Env {
    DEVNULL,
    PLAY,
    LAB,
    DEV,
    DEMO,
    PROD,
}

/// The lower-case name an environment is written with (its `Display`).
pub open spec fn env_name(e: Env) -> Seq<char> {
    match e {
        Env::DEVNULL => "devnull"@,
        Env::PLAY => "play"@,
        Env::LAB => "lab"@,
        Env::DEV => "dev"@,
        Env::DEMO => "demo"@,
        Env::PROD => "prod"@,
    }
}

/// The environment an exact name denotes; any other text is `DEVNULL`.
pub open spec fn env_from_name(s: Seq<char>) -> Env {
    if s == "play"@ {
        Env::PLAY
    } else if s == "lab"@ {
        Env::LAB
    } else if s == "dev"@ {
        Env::DEV
    } else if s == "demo"@ {
        Env::DEMO
    } else if s == "prod"@ {
        Env::PROD
    } else {
        Env::DEVNULL
    }
}

/// The pattern that finds an environment name inside a longer text.
pub open spec fn env_pattern() -> Seq<char> {
    ".*(play|lab|dev|demo|prod).*"@
}

/// The environment a captured text names, `DEVNULL` where nothing was
/// captured.
pub open spec fn env_from_captured(g: Option<Seq<char>>) -> Env {
    match g {
        Some(g) => env_from_name(g),
        None => env_from_name(""@),
    }
}

/// The environment found by `env_pattern` in `s`, `DEVNULL` where none is.
pub open spec fn env_from_text(s: Seq<char>) -> Env {
    env_from_captured(regex_group(env_pattern(), s, 1))
}

/// Whether two strings hold the same characters.
pub fn same_text(a: &str, b: &str) -> (r: bool)
    ensures
        r == (a@ == b@),
{
    a.to_owned() == b.to_owned()
}

impl Env {
    /// The environment named exactly by `s` (`play`, `lab`, `dev`, `demo`,
    /// `prod`); anything else is `DEVNULL`.
    pub fn from_exact(s: &str) -> (e: Env)
        ensures
            e == env_from_name(s@),
    {
        if same_text(s, "play") {
            Env::PLAY
        } else if same_text(s, "lab") {
            Env::LAB
        } else if same_text(s, "dev") {
            Env::DEV
        } else if same_text(s, "demo") {
            Env::DEMO
        } else if same_text(s, "prod") {
            Env::PROD
        } else {
            Env::DEVNULL
        }
    }

    /// The environment whose name occurs in `s`, as the pattern
    /// `.*(play|lab|dev|demo|prod).*` captures it; `DEVNULL` where none does.
    pub fn from_any(s: &str) -> (e: Env)
        ensures
            e == env_from_text(s@),
    {
        let captured = regex_capture(".*(play|lab|dev|demo|prod).*", s, 1);
        Env::from_capture(captured)
    }

    /// The environment named by the text that `env_pattern` captured, given
    /// as `captured` (`None` where it found none): the exact name, or
    /// `DEVNULL`.
    pub fn from_capture(captured: Option<String>) -> (e: Env)
        ensures
            e == env_from_captured(opt_view(captured)),
    {
        match captured {
            Some(g) => Env::from_exact(g.as_str()),
            None => Env::from_exact(""),
        }
    }

    /// The lower-case name of the environment (what `Display` writes).
    pub fn name(&self) -> (s: String)
        ensures
            s@ == env_name(*self),
    {
        match self {
            Env::DEVNULL => "devnull".to_string(),
            Env::PLAY => "play".to_string(),
            Env::LAB => "lab".to_string(),
            Env::DEV => "dev".to_string(),
            Env::DEMO => "demo".to_string(),
            Env::PROD => "prod".to_string(),
        }
    }
}


/// The name of an ECS resource: the part of its ARN after the last `/`.
pub open spec fn ecs_name(arn: Seq<char>) -> Seq<char> {
    split_char(arn, '/').last()
}

/// Whether a piece of a database identifier is an environment name.
pub open spec fn is_env_word(p: Seq<char>) -> bool {
    p == "play"@ || p == "lab"@ || p == "dev"@ || p == "demo"@ || p == "prod"@
}

/// Whether a piece of a database identifier stays in its tracked name:
/// neither `dsi` nor an environment name.
pub open spec fn rds_keeps(p: Seq<char>) -> bool {
    p != "dsi"@ && !is_env_word(p)
}

/// The pieces of `parts` that `rds_keeps`, in order.
pub open spec fn rds_kept(parts: Seq<Seq<char>>) -> Seq<Seq<char>>
    decreases parts.len(),
{
    if parts.len() == 0 {
        parts
    } else if rds_keeps(parts.last()) {
        rds_kept(parts.drop_last()).push(parts.last())
    } else {
        rds_kept(parts.drop_last())
    }
}

/// The name of an RDS instance: the identifier after the last `:` of its
/// ARN, split at `-`, without the pieces `dsi` and environment names,
/// joined again with `-`.
pub open spec fn rds_name(arn: Seq<char>) -> Seq<char> {
    join_with(rds_kept(split_char(split_char(arn, ':').last(), '-')), "-"@)
}

/// A piece of a database identifier that the tracked name drops: `dsi` or
/// the name of an environment, spelled out.
pub open spec fn dropped_word(p: Seq<char>) -> bool {
    p == "dsi"@ || p == "play"@ || p == "lab"@ || p == "dev"@ || p == "demo"@ || p == "prod"@
}

proof fn lemma_rds_kept(parts: Seq<Seq<char>>)
    ensures
        forall|p: Seq<char>| #[trigger] rds_kept(parts).contains(p) <==> (parts.contains(p) && !dropped_word(p)),
    decreases parts.len(),
{
    if parts.len() > 0 {
        let init = parts.drop_last();
        let l = parts.last();
        let rest = rds_kept(init);
        lemma_rds_kept(init);
        assert forall|p: Seq<char>| #[trigger] rds_kept(parts).contains(p) <==> (parts.contains(p) && !dropped_word(p)) by {
            if parts.contains(p) {
                let i = choose|i: int| 0 <= i < parts.len() && parts[i] == p;
                if i < parts.len() - 1 {
                    assert(init[i] == p);
                }
            }
            if init.contains(p) {
                let i = choose|i: int| 0 <= i < init.len() && init[i] == p;
                assert(parts[i] == p);
            }
            if rds_keeps(l) {
                assert(rest.push(l)[rest.len() as int] == l);
                if rest.push(l).contains(p) {
                    let i = choose|i: int| 0 <= i < rest.push(l).len() && rest.push(l)[i] == p;
                    if i < rest.len() {
                        assert(rest[i] == p);
                    }
                }
                if rest.contains(p) {
                    let i = choose|i: int| 0 <= i < rest.len() && rest[i] == p;
                    assert(rest.push(l)[i] == p);
                }
            }
        }
    }
}

/// The pieces of a database identifier kept in its tracked name are exactly
/// those that are neither `dsi` nor an environment's name.
pub proof fn law_rds_kept_pieces(parts: Seq<Seq<char>>)
    ensures
        forall|p: Seq<char>| #[trigger] rds_kept(parts).contains(p) <==> (parts.contains(p) && p != "dsi"@
            && p != "play"@ && p != "lab"@ && p != "dev"@ && p != "demo"@ && p != "prod"@),
{
    lemma_rds_kept(parts);
}

/// The tracked name of an RDS ARN holds no `dsi` and no environment name
/// among its `-`-separated pieces.
pub proof fn law_rds_name_pieces(arn: Seq<char>)
    ensures
        forall|i: int|
            0 <= i < split_char(rds_name(arn), '-').len() ==> {
                let p = #[trigger] split_char(rds_name(arn), '-')[i];
                p != "dsi"@ && p != "play"@ && p != "lab"@ && p != "dev"@ && p != "demo"@ && p != "prod"@
            },
{
    reveal_strlit("-");
    reveal_strlit("dsi");
    reveal_strlit("play");
    reveal_strlit("lab");
    reveal_strlit("dev");
    reveal_strlit("demo");
    reveal_strlit("prod");
    let parts = split_char(split_char(arn, ':').last(), '-');
    let kept = rds_kept(parts);
    lemma_rds_kept(parts);
    lemma_split_char_pieces(split_char(arn, ':').last(), '-');
    assert("-"@ =~= seq!['-']);
    if kept.len() == 0 {
        assert(rds_name(arn) =~= Seq::<char>::empty());
        assert(split_char(rds_name(arn), '-') =~= seq![Seq::<char>::empty()]);
    } else {
        assert forall|i: int| 0 <= i < kept.len() implies !(#[trigger] kept[i]).contains('-') by {
            assert(kept.contains(kept[i]));
            let j = choose|j: int| 0 <= j < parts.len() && parts[j] == kept[i];
        }
        lemma_split_join(kept, '-');
        assert forall|i: int| 0 <= i < kept.len() implies !dropped_word(#[trigger] kept[i]) by {
            assert(kept.contains(kept[i]));
        }
    }
}

/// The tracked name of the database `dsi-<env>-<x>` is `x`, for every
/// environment and every `x` that holds neither `-` nor `:` and is itself
/// neither `dsi` nor an environment's name.
pub proof fn law_rds_name_of_identifier(prefix: Seq<char>, env: Env, x: Seq<char>)
    requires
        env != Env::DEVNULL,
        !x.contains('-'),
        !x.contains(':'),
        x != "dsi"@ && x != "play"@ && x != "lab"@ && x != "dev"@ && x != "demo"@ && x != "prod"@,
    ensures
        rds_name(prefix + ":dsi-"@ + env_name(env) + "-"@ + x) == x,
{
    reveal_strlit(":dsi-");
    reveal_strlit("-");
    reveal_strlit("dsi");
    reveal_strlit("play");
    reveal_strlit("lab");
    reveal_strlit("dev");
    reveal_strlit("demo");
    reveal_strlit("prod");
    let en = env_name(env);
    let dsi = "dsi"@;
    assert(!en.contains('-') && !en.contains(':') && en.len() > 0 && rds_keeps(en) == false) by {
        match env {
            Env::PLAY => {},
            Env::LAB => {},
            Env::DEV => {},
            Env::DEMO => {},
            Env::PROD => {},
            Env::DEVNULL => {},
        }
        if en.contains('-') {
            let i = choose|i: int| 0 <= i < en.len() && en[i] == '-';
        }
        if en.contains(':') {
            let i = choose|i: int| 0 <= i < en.len() && en[i] == ':';
        }
    }
    let ident = dsi + seq!['-'] + (en + seq!['-'] + x);
    let arn = prefix + ":dsi-"@ + en + "-"@ + x;
    assert(arn =~= prefix + seq![':'] + ident);
    assert(!ident.contains(':')) by {
        if ident.contains(':') {
            let i = choose|i: int| 0 <= i < ident.len() && ident[i] == ':';
            if i < 3 {
            } else if i == 3 {
            } else if i < 4 + en.len() {
                assert(en[i - 4] == ':');
            } else if i == 4 + en.len() {
            } else {
                assert(x[i - 5 - en.len()] == ':');
            }
        }
    }
    lemma_split_char_concat(prefix, ident, ':');
    lemma_split_char_whole(ident, ':');
    assert(split_char(arn, ':').last() == ident);
    assert(!dsi.contains('-')) by {
        if dsi.contains('-') {
            let i = choose|i: int| 0 <= i < dsi.len() && dsi[i] == '-';
        }
    }
    lemma_split_char_concat(dsi, en + seq!['-'] + x, '-');
    lemma_split_char_concat(en, x, '-');
    lemma_split_char_whole(dsi, '-');
    lemma_split_char_whole(en, '-');
    lemma_split_char_whole(x, '-');
    let parts = split_char(ident, '-');
    assert(parts =~= seq![dsi, en, x]);
    assert(parts.drop_last() =~= seq![dsi, en]);
    assert(parts.drop_last().drop_last() =~= seq![dsi]);
    assert(parts.drop_last().drop_last().drop_last() =~= Seq::<Seq<char>>::empty());
    assert(seq![dsi].drop_last() =~= Seq::<Seq<char>>::empty());
    assert(seq![dsi].last() == dsi);
    assert(!rds_keeps(dsi));
    assert(rds_kept(Seq::<Seq<char>>::empty()) =~= Seq::<Seq<char>>::empty());
    assert(rds_kept(seq![dsi]) =~= Seq::<Seq<char>>::empty());
    assert(seq![dsi, en].drop_last() =~= seq![dsi]);
    assert(seq![dsi, en].last() == en);
    assert(rds_kept(seq![dsi, en]) =~= Seq::<Seq<char>>::empty());
    assert(rds_keeps(x));
    assert(rds_kept(parts) =~= seq![x]);
}

/// The name of a lambda application from its pseudo-ARN
/// `lambdaApp::<app>::...`: the text between the first and second `::`.
pub open spec fn lambda_name(arn: Seq<char>) -> Seq<char> {
    before_first(arn.skip(11), "::"@)
}

/// The name that the user tracks for any resource ARN.
pub open spec fn tracked_name(arn: Seq<char>) -> Seq<char> {
    if has_prefix(arn, "arn:aws:ecs"@) {
        ecs_name(arn)
    } else if has_prefix(arn, "arn:aws:rds"@) {
        rds_name(arn)
    } else if has_prefix(arn, "lambdaApp::"@) {
        lambda_name(arn)
    } else {
        "unknown!#"@ + arn
    }
}

/// The name of an ECS service or task: the part after the last `/`.
pub fn ecs_arn_to_name(arn: &str) -> (name: String)
    ensures
        name@ == ecs_name(arn@),
{
    let piece = last_piece(arn, '/');
    string_from(&piece)
}

/// The name of an ECS cluster: the part of its ARN after the last `/`.
pub fn cluster_arn_to_name(arn: &str) -> (name: String)
    ensures
        name@ == ecs_name(arn@),
{
    let piece = last_piece(arn, '/');
    string_from(&piece)
}

/// The tracked name of an RDS instance (see `rds_name`).
pub fn rds_arn_to_name(arn: &str) -> (name: String)
    ensures
        name@ == rds_name(arn@),
{
    let ident = last_piece(arn, ':');
    let parts = split_on(&ident, '-');
    let dsi = chars_of("dsi");
    let play = chars_of("play");
    let lab = chars_of("lab");
    let dev = chars_of("dev");
    let demo = chars_of("demo");
    let prod = chars_of("prod");
    let mut kept: Vec<Vec<char>> = Vec::new();
    let mut i: usize = 0;
    while i < parts.len()
        invariant
            i <= parts.len(),
            dsi@ == "dsi"@,
            play@ == "play"@,
            lab@ == "lab"@,
            dev@ == "dev"@,
            demo@ == "demo"@,
            prod@ == "prod"@,
            seqs_of(kept@) == rds_kept(seqs_of(parts@).take(i as int)),
        decreases parts.len() - i,
    {
        let ghost done = seqs_of(parts@).take(i as int);
        let ghost next = seqs_of(parts@).take(i + 1);
        assert(next.drop_last() =~= done);
        assert(next.last() == parts@[i as int]@);
        let p = &parts[i];
        let drop = same_chars(p, &dsi) || same_chars(p, &play) || same_chars(p, &lab)
            || same_chars(p, &dev) || same_chars(p, &demo) || same_chars(p, &prod);
        if !drop {
            let ghost before = seqs_of(kept@);
            kept.push(parts[i].clone());
            assert(seqs_of(kept@) =~= before.push(parts@[i as int]@));
        }
        i = i + 1;
    }
    assert(seqs_of(parts@).take(parts.len() as int) =~= seqs_of(parts@));
    let dash = chars_of("-");
    let joined = join_on(&kept, &dash);
    string_from(&joined)
}

/// The name the user tracks for a resource: the service name of an ECS ARN,
/// the database name of an RDS ARN, the application of a lambda pseudo-ARN,
/// and `unknown!#` followed by the ARN for anything else.
pub fn arn_to_name(arn: &str) -> (name: String)
    ensures
        name@ == tracked_name(arn@),
{
    let chars = chars_of(arn);
    if starts_with(&chars, &chars_of("arn:aws:ecs")) {
        return ecs_arn_to_name(arn);
    }
    if starts_with(&chars, &chars_of("arn:aws:rds")) {
        return rds_arn_to_name(arn);
    }
    let lambda_prefix = chars_of("lambdaApp::");
    if starts_with(&chars, &lambda_prefix) {
        proof {
            reveal_strlit("lambdaApp::");
        }
        let app = before_first_from(&chars, 11, &chars_of("::"));
        return string_from(&app);
    }
    let mut out = chars_of("unknown!#");
    push_all(&mut out, &chars);
    string_from(&out)
}


/// The text before the first `::` of `a`, `::` and `rest` is `a`, where
/// `a` holds no `::` and does not end in `:`.
proof fn lemma_before_separator(a: Seq<char>, rest: Seq<char>)
    requires
        !has_infix(a, "::"@),
        a.len() > 0 ==> a.last() != ':',
    ensures
        before_first(a + "::"@ + rest, "::"@) == a,
    decreases a.len(),
{
    reveal_strlit("::");
    let s = a + "::"@ + rest;
    if a.len() == 0 {
        assert(s.take(2) =~= "::"@);
    } else {
        if has_prefix(s, "::"@) {
            assert(s.take(2)[0] == s[0] && s.take(2)[1] == s[1]);
            if a.len() >= 2 {
                assert(a.subrange(0, 2) =~= "::"@);
                assert(occurs_at(a, "::"@, 0));
            }
        }
        let t = a.skip(1);
        assert(!has_infix(t, "::"@)) by {
            if has_infix(t, "::"@) {
                let i = choose|i: int| occurs_at(t, "::"@, i);
                assert(a.subrange(i + 1, i + 3) =~= t.subrange(i, i + 2));
                assert(occurs_at(a, "::"@, i + 1));
            }
        }
        if t.len() > 0 {
            assert(t.last() == a.last());
        }
        lemma_before_separator(t, rest);
        assert(s.skip(1) =~= t + "::"@ + rest);
        assert(seq![a[0]] + t =~= a);
    }
}

/// The tracked name of the pseudo-ARN `lambdaApp::<app>::<env>` of a lambda
/// proxy is its application, where the application's name holds no `::`
/// and does not end in `:`.
pub proof fn law_lambda_arn_names_app(app: Seq<char>, env: Env)
    requires
        !has_infix(app, "::"@),
        app.len() > 0 ==> app.last() != ':',
    ensures
        tracked_name("lambdaApp::"@ + app + "::"@ + env_name(env)) == app,
{
    reveal_strlit("lambdaApp::");
    reveal_strlit("arn:aws:ecs");
    reveal_strlit("arn:aws:rds");
    let arn = "lambdaApp::"@ + app + "::"@ + env_name(env);
    assert(arn.take(11) =~= "lambdaApp::"@);
    if has_prefix(arn, "arn:aws:ecs"@) {
        assert(arn.take(11)[0] == arn[0]);
    }
    if has_prefix(arn, "arn:aws:rds"@) {
        assert(arn.take(11)[0] == arn[0]);
    }
    assert(arn.skip(11) =~= app + "::"@ + env_name(env));
    lemma_before_separator(app, env_name(env));
}

/// The weight of the `i`-th component of a dotted version (major, minor,
/// patch).
pub open spec fn version_weight(i: int) -> nat {
    if i == 0 {
        1000000
    } else if i == 1 {
        1000
    } else {
        1
    }
}

/// What the `i`-th component adds: its value times its weight, or nothing
/// where it is not a number.
pub open spec fn version_term(p: Seq<char>, i: int) -> nat {
    match parse_u32(p) {
        Some(n) => n * version_weight(i),
        None => 0,
    }
}

/// The sum of the terms of the components `parts`.
pub open spec fn version_sum(parts: Seq<Seq<char>>) -> nat
    decreases parts.len(),
{
    if parts.len() == 0 {
        0
    } else {
        version_sum(parts.drop_last()) + version_term(parts.last(), parts.len() - 1)
    }
}

/// The number a dotted version stands for: `major * 10^6 + minor * 10^3 +
/// patch`, components that are not numbers counting 0.
pub open spec fn version_number(v: Seq<char>) -> nat {
    version_sum(split_char(v, '.'))
}

/// The versions that can be converted without overflow: a numeric component
/// only in the first three places, and every term and the total within `u32`.
pub open spec fn version_convertible(v: Seq<char>) -> bool {
    let parts = split_char(v, '.');
    &&& forall|i: int| 3 <= i < parts.len() ==> parse_u32(#[trigger] parts[i]) is None
    &&& forall|i: int| 0 <= i < parts.len() ==> #[trigger] version_term(parts[i], i) <= u32::MAX
    &&& version_sum(parts) <= u32::MAX
}

proof fn lemma_version_sum_prefix(parts: Seq<Seq<char>>, k: int)
    requires
        0 <= k <= parts.len(),
    ensures
        version_sum(parts.take(k)) <= version_sum(parts),
    decreases parts.len(),
{
    if k < parts.len() {
        assert(parts.drop_last().take(k) =~= parts.take(k));
        lemma_version_sum_prefix(parts.drop_last(), k);
    } else {
        assert(parts.take(k) =~= parts);
    }
}

/// The number of a dotted version, or `None` where converting it overflows
/// (see `version_convertible`).
pub fn version_number_checked(version: &str) -> (r: Option<u32>)
    ensures
        r is Some <==> version_convertible(version@),
        r matches Some(n) ==> n == version_number(version@),
{
    let chars = chars_of(version);
    let parts = split_on(&chars, '.');
    let ghost ps = seqs_of(parts@);
    let mut total: u64 = 0;
    let mut i: usize = 0;
    while i < parts.len()
        invariant
            ps == seqs_of(parts@),
            ps == split_char(version@, '.'),
            i <= parts.len(),
            total == version_sum(ps.take(i as int)),
            total <= u32::MAX,
            forall|j: int| 3 <= j < i ==> parse_u32(#[trigger] ps[j]) is None,
            forall|j: int| 0 <= j < i ==> #[trigger] version_term(ps[j], j) <= u32::MAX,
        decreases parts.len() - i,
    {
        assert(ps.take(i + 1).drop_last() =~= ps.take(i as int));
        assert(ps[i as int] == parts@[i as int]@);
        let parsed = parse_u32_chars(&parts[i]);
        let term: u64 = match parsed {
            Some(n) => {
                if i > 2 {
                    return None;
                }
                let w: u64 = if i == 0 { 1000000 } else if i == 1 { 1000 } else { 1 };
                assert((n as u64) * w <= 4294967295u64 * 1000000u64) by (nonlinear_arith)
                    requires
                        n <= 4294967295u64,
                        w <= 1000000u64,
                ;
                (n as u64) * w
            },
            None => 0,
        };
        assert(term == version_term(ps[i as int], i as int));
        if term > 4294967295 {
            return None;
        }
        if total + term > 4294967295 {
            proof {
                lemma_version_sum_prefix(ps, i + 1);
            }
            return None;
        }
        total = total + term;
        i = i + 1;
    }
    assert(ps.take(parts.len() as int) =~= ps);
    Some(total as u32)
}

/// The number a dotted version stands for (`"1.2.3"` is `1002003`); a
/// component that is not a number counts 0.
pub fn version_to_number(version: &str) -> (n: u32)
    requires
        version_convertible(version@),
    ensures
        n == version_number(version@),
{
    version_number_checked(version).unwrap()
}

/// `v` is written `major.minor.patch`, each part a decimal number.
pub open spec fn three_part_version(v: Seq<char>, major: nat, minor: nat, patch: nat) -> bool {
    let parts = split_char(v, '.');
    &&& parts.len() == 3
    &&& parse_u32(parts[0]) == Some(major)
    &&& parse_u32(parts[1]) == Some(minor)
    &&& parse_u32(parts[2]) == Some(patch)
}

proof fn lemma_three_part_number(v: Seq<char>, major: nat, minor: nat, patch: nat)
    requires
        three_part_version(v, major, minor, patch),
    ensures
        version_number(v) == major * 1000000 + minor * 1000 + patch,
        major <= 4293 && minor < 1000 && patch < 1000 ==> version_convertible(v),
{
    let parts = split_char(v, '.');
    let p2 = parts.drop_last();
    let p1 = p2.drop_last();
    let p0 = p1.drop_last();
    assert(p0.len() == 0);
    assert(version_sum(p0) == 0);
    assert(p1.last() == parts[0]);
    assert(p2.last() == parts[1]);
    assert(version_sum(p1) == version_term(parts[0], 0));
    assert(version_sum(p2) == version_term(parts[0], 0) + version_term(parts[1], 1));
    assert(version_sum(parts) == version_term(parts[0], 0) + version_term(parts[1], 1)
        + version_term(parts[2], 2));
    if major <= 4293 && minor < 1000 && patch < 1000 {
        assert(major * 1000000 <= 4293000000) by (nonlinear_arith)
            requires
                major <= 4293,
        ;
        assert(minor * 1000 <= 999000) by (nonlinear_arith)
            requires
                minor < 1000,
        ;
        assert forall|i: int| 0 <= i < parts.len() implies #[trigger] version_term(parts[i], i)
            <= u32::MAX by {
            if i == 0 {
            } else if i == 1 {
            } else {
            }
        }
    }
}

/// Versions written `major.minor.patch`, with minor and patch below 1000,
/// are ordered by their numbers as by their parts, major first: the number
/// is `major * 10^6 + minor * 10^3 + patch`, it converts without overflow
/// where major is at most 4293, and two such versions have the same number
/// exactly when their parts are equal.
pub proof fn law_version_order(
    a: Seq<char>,
    b: Seq<char>,
    a_major: nat,
    a_minor: nat,
    a_patch: nat,
    b_major: nat,
    b_minor: nat,
    b_patch: nat,
)
    requires
        three_part_version(a, a_major, a_minor, a_patch),
        three_part_version(b, b_major, b_minor, b_patch),
        a_minor < 1000,
        a_patch < 1000,
        b_minor < 1000,
        b_patch < 1000,
    ensures
        version_number(a) == a_major * 1000000 + a_minor * 1000 + a_patch,
        a_major <= 4293 ==> version_convertible(a),
        version_number(a) < version_number(b) <==> (a_major < b_major || (a_major == b_major && (
        a_minor < b_minor || (a_minor == b_minor && a_patch < b_patch)))),
        version_number(a) == version_number(b) <==> (a_major == b_major && a_minor == b_minor
            && a_patch == b_patch),
{
    lemma_three_part_number(a, a_major, a_minor, a_patch);
    lemma_three_part_number(b, b_major, b_minor, b_patch);
    let x = a_major * 1000000 + a_minor * 1000 + a_patch;
    let y = b_major * 1000000 + b_minor * 1000 + b_patch;
    assert(x < y <==> (a_major < b_major || (a_major == b_major && (a_minor < b_minor || (a_minor
        == b_minor && a_patch < b_patch))))) by (nonlinear_arith)
        requires
            x == a_major * 1000000 + a_minor * 1000 + a_patch,
            y == b_major * 1000000 + b_minor * 1000 + b_patch,
            a_minor < 1000,
            a_patch < 1000,
            b_minor < 1000,
            b_patch < 1000,
    ;
    assert(x == y <==> (a_major == b_major && a_minor == b_minor && a_patch == b_patch))
        by (nonlinear_arith)
        requires
            x == a_major * 1000000 + a_minor * 1000 + a_patch,
            y == b_major * 1000000 + b_minor * 1000 + b_patch,
            a_minor < 1000,
            a_patch < 1000,
            b_minor < 1000,
            b_patch < 1000,
    ;
}


/// A span of milliseconds in whole seconds, truncated toward zero (what
/// `num_seconds` gives for a time difference).
pub open spec fn whole_seconds(ms: int) -> int {
    if ms >= 0 {
        ms / 1000
    } else {
        -((-ms) / 1000)
    }
}

fn elapsed_seconds(from_ms: i64, to_ms: i64) -> (r: i64)
    ensures
        r == whole_seconds(to_ms - from_ms),
{
    let diff: i128 = (to_ms as i128) - (from_ms as i128);
    let secs: i128 = if diff >= 0 { diff / 1000 } else { -((-diff) / 1000) };
    secs as i64
}

/// How the browser extension is doing, as the UI shows it.
#[derive(Clone, Copy, Debug, PartialEq, Eq, Structural)]
pub enum BrowserExtensionState {
    Disconnected,
    NotSupported,
    Outdated,
    UpToDate,
}

/// The state of the browser extension and the version it reported.
#[derive(Clone, Debug)]
pub struct BrowserExtensionStatus {
    pub state: BrowserExtensionState,
    pub version: Option<String>,
}

/// What the application knows of the browser extension; times are
/// milliseconds since the Unix epoch.
#[derive(Clone, Debug)]
pub struct BrowserExtension {
    pub version: Option<String>,
    pub reported_version: Option<String>,
    pub last_health_check: i64,
    pub expected_version: String,
    pub last_supported_version: String,
}

/// The version the extension reported, `0.0.0` where it reported none.
pub open spec fn reported_or_zero(v: Option<String>) -> Seq<char> {
    match v {
        Some(s) => s@,
        None => "0.0.0"@,
    }
}

/// The state of the extension at time `now`: disconnected unless it was
/// heard from less than 10 seconds before; then up to date at or above the
/// expected version, not supported below the last supported one, outdated
/// in between.
pub open spec fn extension_state(ext: BrowserExtension, now: int) -> BrowserExtensionState {
    let v = version_number(reported_or_zero(ext.version));
    if whole_seconds(now - ext.last_health_check) < 10 {
        if v >= version_number(ext.expected_version@) {
            BrowserExtensionState::UpToDate
        } else if v < version_number(ext.last_supported_version@) {
            BrowserExtensionState::NotSupported
        } else {
            BrowserExtensionState::Outdated
        }
    } else {
        BrowserExtensionState::Disconnected
    }
}

/// The versions whose conversion the state at `now` needs do not overflow.
pub open spec fn extension_state_defined(ext: BrowserExtension, now: int) -> bool {
    let v = reported_or_zero(ext.version);
    &&& version_convertible(v)
    &&& whole_seconds(now - ext.last_health_check) < 10 ==> {
        &&& version_convertible(ext.expected_version@)
        &&& version_number(v) < version_number(ext.expected_version@) ==> version_convertible(
            ext.last_supported_version@,
        )
    }
}

/// The versions that any state of the extension needs convert.
pub open spec fn extension_versions_defined(ext: BrowserExtension) -> bool {
    let v = reported_or_zero(ext.version);
    &&& version_convertible(v)
    &&& version_convertible(ext.expected_version@)
    &&& version_number(v) < version_number(ext.expected_version@) ==> version_convertible(
        ext.last_supported_version@,
    )
}

fn copy_opt_string(o: &Option<String>) -> (r: Option<String>)
    ensures
        r == *o,
{
    match o {
        Some(s) => Some(s.clone()),
        None => None,
    }
}

impl BrowserExtension {
    /// The status of the extension at time `now` (milliseconds).
    pub fn status_at(&self, now: i64) -> (st: BrowserExtensionStatus)
        requires
            extension_state_defined(*self, now as int),
        ensures
            st.state == extension_state(*self, now as int),
            st.version == self.version,
    {
        let version_text: String = match &self.version {
            Some(v) => v.clone(),
            None => "0.0.0".to_string(),
        };
        let numbered_version = version_to_number(version_text.as_str());
        let state = if elapsed_seconds(self.last_health_check, now) < 10 {
            if numbered_version >= version_to_number(self.expected_version.as_str()) {
                BrowserExtensionState::UpToDate
            } else if numbered_version < version_to_number(self.last_supported_version.as_str()) {
                BrowserExtensionState::NotSupported
            } else {
                BrowserExtensionState::Outdated
            }
        } else {
            BrowserExtensionState::Disconnected
        };
        BrowserExtensionStatus { state, version: copy_opt_string(&self.version) }
    }

    /// The status of the extension now: its state at some moment of the
    /// clock, and the version it reported.
    pub fn to_status(&self) -> (st: BrowserExtensionStatus)
        requires
            extension_versions_defined(*self),
        ensures
            exists|now: i64| st.state == extension_state(*self, now as int),
            st.version == self.version,
    {
        let now = now_millis();
        self.status_at(now)
    }

    /// Records a health report of the extension, received at `now`.
    pub fn record_health(&mut self, version: String, now: i64)
        ensures
            final(self).last_health_check == now,
            final(self).version == Some(version),
            final(self).reported_version == old(self).reported_version,
            final(self).expected_version == old(self).expected_version,
            final(self).last_supported_version == old(self).last_supported_version,
    {
        self.last_health_check = now;
        self.version = Some(version);
    }
}

/// A cookie handed over by the browser extension; `stored_at` is in
/// milliseconds since the Unix epoch.
#[derive(Clone, Debug)]
pub struct Cookie {
    pub name: String,
    pub value: String,
    pub env: Env,
    pub stored_at: i64,
}

impl Cookie {
    /// A copy of the cookie.
    pub fn duplicate(&self) -> (c: Cookie)
        ensures
            c == *self,
    {
        Cookie {
            name: self.name.clone(),
            value: self.value.clone(),
            env: self.env,
            stored_at: self.stored_at,
        }
    }
}

/// How fresh a cookie is (`Fresh` is what the UI receives as `Ok`).
#[derive(Clone, Copy, Debug, PartialEq, Eq, Structural)]
pub enum CookieHealth {
    Fresh,
    Stale,
    Old,
}

/// The health of a cookie stored at `stored` as seen at `now`: up to 300
/// whole seconds old is fine, up to 600 stale, older (or from the future)
/// old.
pub open spec fn cookie_health(stored: int, now: int) -> CookieHealth {
    let secs = whole_seconds(now - stored);
    if 0 <= secs <= 300 {
        CookieHealth::Fresh
    } else if 301 <= secs <= 600 {
        CookieHealth::Stale
    } else {
        CookieHealth::Old
    }
}

/// The cookies the browser extension handed over.
#[derive(Clone, Debug)]
pub struct CookieJar {
    pub cookies: Vec<Cookie>,
}

/// The health of the newest cookie of each environment, one entry per
/// environment.
#[derive(Clone, Debug)]
pub struct CookieJarStatus {
    pub cookie_health: Vec<(Env, CookieHealth)>,
}

/// The position of the last cookie of environment `e`, or -1.
pub open spec fn last_with_env(cs: Seq<Cookie>, e: Env) -> int
    decreases cs.len(),
{
    if cs.len() == 0 {
        -1
    } else if cs.last().env == e {
        cs.len() - 1
    } else {
        last_with_env(cs.drop_last(), e)
    }
}

proof fn lemma_last_with_env(cs: Seq<Cookie>, e: Env)
    ensures
        -1 <= last_with_env(cs, e) < cs.len(),
        last_with_env(cs, e) >= 0 ==> cs[last_with_env(cs, e)].env == e,
        forall|i: int| last_with_env(cs, e) < i < cs.len() ==> cs[i].env != e,
    decreases cs.len(),
{
    if cs.len() > 0 {
        lemma_last_with_env(cs.drop_last(), e);
        assert forall|i: int| last_with_env(cs, e) < i < cs.len() implies cs[i].env != e by {
            if i < cs.len() - 1 {
                assert(cs[i] == cs.drop_last()[i]);
            }
        }
    }
}

fn find_env(r: &Vec<(Env, CookieHealth)>, e: Env) -> (k: Option<usize>)
    ensures
        k matches Some(k) ==> k < r.len() && r@[k as int].0 == e,
        k is None ==> forall|j: int| 0 <= j < r.len() ==> r@[j].0 != e,
{
    let mut k: usize = 0;
    while k < r.len()
        invariant
            k <= r.len(),
            forall|j: int| 0 <= j < k ==> r@[j].0 != e,
        decreases r.len() - k,
    {
        if r[k].0 == e {
            return Some(k);
        }
        k = k + 1;
    }
    None
}

/// `r` holds, once per environment that some cookie has, the health at
/// `now` of the last cookie of that environment.
pub open spec fn jar_status_holds(cs: Seq<Cookie>, r: Seq<(Env, CookieHealth)>, now: int) -> bool {
    &&& forall|k: int|
        0 <= k < r.len() ==> #[trigger] last_with_env(cs, r[k].0) >= 0 && r[k].1 == cookie_health(
            cs[last_with_env(cs, r[k].0)].stored_at as int,
            now,
        )
    &&& forall|i: int, j: int| 0 <= i < j < r.len() ==> r[i].0 != r[j].0
    &&& forall|i: int| 0 <= i < cs.len() ==> exists|k: int| 0 <= k < r.len() && r[k].0 == #[trigger] cs[i].env
}

/// The `name=value` pairs of the cookies of environment `e`, in order.
pub open spec fn cookie_pairs(cs: Seq<Cookie>, e: Env) -> Seq<Seq<char>>
    decreases cs.len(),
{
    if cs.len() == 0 {
        Seq::<Seq<char>>::empty()
    } else if cs.last().env == e {
        cookie_pairs(cs.drop_last(), e).push(cs.last().name@ + "="@ + cs.last().value@)
    } else {
        cookie_pairs(cs.drop_last(), e)
    }
}

/// The cookies of `cs` not named `name`, in order.
pub open spec fn without_name(cs: Seq<Cookie>, name: Seq<char>) -> Seq<Cookie>
    decreases cs.len(),
{
    if cs.len() == 0 {
        cs
    } else if cs.last().name@ == name {
        without_name(cs.drop_last(), name)
    } else {
        without_name(cs.drop_last(), name).push(cs.last())
    }
}

fn health_at(stored: i64, now: i64) -> (h: CookieHealth)
    ensures
        h == cookie_health(stored as int, now as int),
{
    let secs = elapsed_seconds(stored, now);
    if 0 <= secs && secs <= 300 {
        CookieHealth::Fresh
    } else if 301 <= secs && secs <= 600 {
        CookieHealth::Stale
    } else {
        CookieHealth::Old
    }
}

impl CookieJar {
    /// The `Cookie` header for environment `env`: the `name=value` pairs of
    /// its cookies joined with `; `.
    pub fn header_value_for_env(&self, env: &Env) -> (h: String)
        ensures
            h@ == join_with(cookie_pairs(self.cookies@, *env), "; "@),
    {
        let mut pairs: Vec<Vec<char>> = Vec::new();
        let mut i: usize = 0;
        while i < self.cookies.len()
            invariant
                i <= self.cookies.len(),
                seqs_of(pairs@) == cookie_pairs(self.cookies@.take(i as int), *env),
            decreases self.cookies.len() - i,
        {
            assert(self.cookies@.take(i + 1).drop_last() =~= self.cookies@.take(i as int));
            let c = &self.cookies[i];
            if c.env == *env {
                let mut pair = chars_of(c.name.as_str());
                push_all(&mut pair, &chars_of("="));
                push_all(&mut pair, &chars_of(c.value.as_str()));
                let ghost before = seqs_of(pairs@);
                pairs.push(pair);
                assert(seqs_of(pairs@) =~= before.push(c.name@ + "="@ + c.value@));
            }
            i = i + 1;
        }
        assert(self.cookies@.take(self.cookies.len() as int) =~= self.cookies@);
        let joined = join_on(&pairs, &chars_of("; "));
        string_from(&joined)
    }

    /// The health at `now` of the newest cookie of each environment.
    pub fn status_at(&self, now: i64) -> (st: CookieJarStatus)
        ensures
            jar_status_holds(self.cookies@, st.cookie_health@, now as int),
    {
        let mut r: Vec<(Env, CookieHealth)> = Vec::new();
        let mut i: usize = 0;
        while i < self.cookies.len()
            invariant
                i <= self.cookies.len(),
                jar_status_holds(self.cookies@.take(i as int), r@, now as int),
            decreases self.cookies.len() - i,
        {
            let ghost cs = self.cookies@.take(i as int);
            let ghost next = self.cookies@.take(i + 1);
            assert(next.drop_last() =~= cs);
            let c = &self.cookies[i];
            let h = health_at(c.stored_at, now);
            let pos = find_env(&r, c.env);
            proof {
                lemma_last_with_env(next, c.env);
                assert(next[i as int] == *c);
                assert(last_with_env(next, c.env) == i);
                assert forall|e: Env| e != c.env implies last_with_env(next, e) == last_with_env(cs, e) by {}
                assert forall|q: int| 0 <= q < i implies next[q] == cs[q] by {}
            }
            let ghost old_r = r@;
            match pos {
                Some(k) => {
                    r.set(k, (c.env, h));
                    assert forall|q: int| 0 <= q < r@.len() implies #[trigger] last_with_env(next, r@[q].0) >= 0 && r@[q].1 == cookie_health(
                        next[last_with_env(next, r@[q].0)].stored_at as int,
                        now as int,
                    ) by {
                        if q != k {
                            assert(r@[q] == old_r[q]);
                            assert(old_r[q].0 != c.env);
                            assert(last_with_env(cs, old_r[q].0) >= 0);
                            lemma_last_with_env(cs, old_r[q].0);
                            assert(last_with_env(next, r@[q].0) == last_with_env(cs, old_r[q].0));
                        }
                    }
                    assert forall|q: int| 0 <= q < next.len() implies exists|m: int| 0 <= m < r@.len() && r@[m].0 == #[trigger] next[q].env by {
                        if q < i {
                            let m = choose|m: int| 0 <= m < old_r.len() && old_r[m].0 == cs[q].env;
                            assert(r@[m].0 == next[q].env);
                        } else {
                            assert(r@[k as int].0 == next[q].env);
                        }
                    }
                },
                None => {
                    r.push((c.env, h));
                    assert forall|q: int| 0 <= q < r@.len() implies #[trigger] last_with_env(next, r@[q].0) >= 0 && r@[q].1 == cookie_health(
                        next[last_with_env(next, r@[q].0)].stored_at as int,
                        now as int,
                    ) by {
                        if q < old_r.len() {
                            assert(r@[q] == old_r[q]);
                            assert(old_r[q].0 != c.env);
                            assert(last_with_env(cs, old_r[q].0) >= 0);
                            lemma_last_with_env(cs, old_r[q].0);
                            assert(last_with_env(next, r@[q].0) == last_with_env(cs, old_r[q].0));
                        }
                    }
                    assert forall|q: int| 0 <= q < next.len() implies exists|m: int| 0 <= m < r@.len() && r@[m].0 == #[trigger] next[q].env by {
                        if q < i {
                            let m = choose|m: int| 0 <= m < old_r.len() && old_r[m].0 == cs[q].env;
                            assert(r@[m].0 == next[q].env);
                        } else {
                            assert(r@[old_r.len() as int].0 == next[q].env);
                        }
                    }
                },
            }
            assert(next[i as int] == *c);
            i = i + 1;
        }
        assert(self.cookies@.take(self.cookies.len() as int) =~= self.cookies@);
        CookieJarStatus { cookie_health: r }
    }

    /// The health of the newest cookie of each environment, at some moment
    /// of the clock.
    pub fn to_status(&self) -> (st: CookieJarStatus)
        ensures
            exists|now: i64| jar_status_holds(self.cookies@, st.cookie_health@, now as int),
    {
        let now = now_millis();
        self.status_at(now)
    }

    /// Stores a cookie, replacing any cookie of the same name.
    pub fn put(&mut self, cookie: Cookie)
        ensures
            final(self).cookies@ == without_name(old(self).cookies@, cookie.name@).push(cookie),
    {
        let name = cookie.name.clone();
        self.delete(name.as_str());
        self.cookies.push(cookie);
    }

    /// Removes every cookie named `name`.
    pub fn delete(&mut self, name: &str)
        ensures
            final(self).cookies@ == without_name(old(self).cookies@, name@),
    {
        let mut kept: Vec<Cookie> = Vec::new();
        let mut i: usize = 0;
        while i < self.cookies.len()
            invariant
                i <= self.cookies.len(),
                kept@ == without_name(self.cookies@.take(i as int), name@),
            decreases self.cookies.len() - i,
        {
            assert(self.cookies@.take(i + 1).drop_last() =~= self.cookies@.take(i as int));
            if !same_text(self.cookies[i].name.as_str(), name) {
                kept.push(self.cookies[i].duplicate());
            }
            i = i + 1;
        }
        assert(self.cookies@.take(self.cookies.len() as int) =~= self.cookies@);
        self.cookies = kept;
    }
}


/// No two cookies share a name.
pub open spec fn names_unique(cs: Seq<Cookie>) -> bool {
    forall|i: int, j: int| 0 <= i < j < cs.len() ==> cs[i].name@ != cs[j].name@
}

proof fn lemma_without_name(cs: Seq<Cookie>, name: Seq<char>)
    ensures
        forall|i: int| 0 <= i < without_name(cs, name).len() ==> without_name(cs, name)[i].name@ != name,
        forall|i: int| 0 <= i < without_name(cs, name).len() ==> cs.contains(#[trigger] without_name(cs, name)[i]),
        forall|i: int| 0 <= i < cs.len() && cs[i].name@ != name ==> without_name(cs, name).contains(#[trigger] cs[i]),
        names_unique(cs) ==> names_unique(without_name(cs, name)),
    decreases cs.len(),
{
    if cs.len() > 0 {
        let init = cs.drop_last();
        lemma_without_name(init, name);
        let w = without_name(cs, name);
        assert forall|i: int| 0 <= i < w.len() implies cs.contains(#[trigger] w[i]) by {
            if cs.last().name@ == name || i < w.len() - 1 {
                let j = choose|j: int| 0 <= j < init.len() && init[j] == w[i];
                assert(cs[j] == w[i]);
            } else {
                assert(cs[cs.len() - 1] == w[i]);
            }
        }
        assert forall|i: int| 0 <= i < cs.len() && cs[i].name@ != name implies w.contains(#[trigger] cs[i]) by {
            if i < cs.len() - 1 {
                assert(init[i] == cs[i]);
                let j = choose|j: int| 0 <= j < without_name(init, name).len() && without_name(init, name)[j] == init[i];
                assert(w[j] == cs[i]);
            } else {
                assert(w[w.len() - 1] == cs[i]);
            }
        }
        if names_unique(cs) {
            assert(names_unique(init)) by {
                assert forall|i: int, j: int| 0 <= i < j < init.len() implies init[i].name@ != init[j].name@ by {
                    assert(init[i] == cs[i] && init[j] == cs[j]);
                }
            }
            assert forall|i: int, j: int| 0 <= i < j < w.len() implies w[i].name@ != w[j].name@ by {
                if cs.last().name@ != name && j == w.len() - 1 {
                    let wi = without_name(init, name)[i];
                    let k = choose|k: int| 0 <= k < init.len() && init[k] == wi;
                    assert(cs[k] == wi);
                    assert(cs[cs.len() - 1] == w[j]);
                }
            }
        }
    }
}

/// Storing a cookie leaves exactly one cookie of its name in the jar, the
/// new one, keeps every cookie of another name, and keeps the names of a
/// jar unique.
pub proof fn law_put_replaces(cs: Seq<Cookie>, c: Cookie)
    ensures
        ({
            let after = without_name(cs, c.name@).push(c);
            &&& after.last() == c
            &&& forall|i: int| 0 <= i < after.len() - 1 ==> after[i].name@ != c.name@
            &&& forall|i: int| 0 <= i < cs.len() && cs[i].name@ != c.name@ ==> after.contains(#[trigger] cs[i])
            &&& names_unique(cs) ==> names_unique(after)
        }),
{
    lemma_without_name(cs, c.name@);
    let w = without_name(cs, c.name@);
    let after = w.push(c);
    assert forall|i: int| 0 <= i < cs.len() && cs[i].name@ != c.name@ implies after.contains(#[trigger] cs[i]) by {
        let j = choose|j: int| 0 <= j < w.len() && w[j] == cs[i];
        assert(after[j] == cs[i]);
    }
    assert forall|i: int| 0 <= i < after.len() - 1 implies after[i].name@ != c.name@ by {
        assert(after[i] == w[i]);
    }
    if names_unique(cs) {
        assert forall|i: int, j: int| 0 <= i < j < after.len() implies after[i].name@ != after[j].name@ by {
            assert(after[i] == w[i]);
            if j < after.len() - 1 {
                assert(after[j] == w[j]);
            }
        }
    }
}

/// After deleting a name no cookie of that name is left, every other cookie
/// stays, and no cookie appears that was not there.
pub proof fn law_delete_removes(cs: Seq<Cookie>, name: Seq<char>)
    ensures
        forall|i: int| 0 <= i < without_name(cs, name).len() ==> without_name(cs, name)[i].name@ != name,
        forall|i: int| 0 <= i < cs.len() && cs[i].name@ != name ==> without_name(cs, name).contains(#[trigger] cs[i]),
        forall|i: int| 0 <= i < without_name(cs, name).len() ==> cs.contains(#[trigger] without_name(cs, name)[i]),
{
    lemma_without_name(cs, name);
}


/// The kind of resource a proxy or a port belongs to.
#[derive(Clone, Copy, Debug, PartialEq, Eq, Structural)]
#[allow(clippy::upper_case_acronyms)]
pub enum ResourceType {
    RDS,
    ECS,
    LambdaApp,
}

/// The error a command of the application answers with.
#[derive(Clone, Debug)]
pub struct CommandError {
    pub message: String,
    pub command: String,
}

impl CommandError {
    /// An error of `command` saying `message`.
    pub fn new(command: &str, message: String) -> (e: CommandError)
        ensures
            e.command@ == command@,
            e.message == message,
    {
        CommandError { command: command.to_owned(), message }
    }
}

} // verus!
