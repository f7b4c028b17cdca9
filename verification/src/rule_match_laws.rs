//! What holds of patterns, of the affinity of threads, and of task names.

use vstd::prelude::*;

use crate::config;
use crate::config::AffinityRule;
use crate::config::AppConfig;
use crate::config::RuleView;
use crate::cpuset;
use crate::rule_match;
use crate::text;

verus! {

// ---------------------------------------------------------------------------
// Patterns
// ---------------------------------------------------------------------------
/// Whether `p` holds no character that has a meaning of its own in patterns.
pub open spec fn is_literal(p: Seq<char>) -> bool {
    forall|k: int|
        0 <= k < p.len() ==> #[trigger] p[k] != '*' && p[k] != '?'
            && p[k] != '['
}

/// A literal at the start of a pattern matches itself, and the rest of the pattern
/// matches the rest.
pub proof fn law_literal_start(lit: Seq<char>, rest: Seq<char>, s: Seq<char>)
    requires
        is_literal(lit),
    ensures
        rule_match::glob(lit + rest, s) == (lit.is_prefix_of(s) && rule_match::glob(
            rest,
            s.skip(lit.len() as int),
        )),
    decreases lit.len(),
{
    let p = lit + rest;
    if lit.len() == 0 {
        assert(p =~= rest);
        assert(s.skip(0) =~= s);
        assert(lit =~= s.subrange(0, 0));
    } else {
        let tail = lit.skip(1);
        assert(p[0] == lit[0]);
        assert(p.skip(1) =~= tail + rest);
        assert forall|k: int| 0 <= k < tail.len() implies #[trigger] tail[k] != '*'
            && tail[k] != '?' && tail[k] != '[' by {
            assert(tail[k] == lit[k + 1]);
        }
        if s.len() > 0 {
            law_literal_start(tail, rest, s.skip(1));
            if s.len() >= lit.len() {
                assert(s.skip(1).skip(tail.len() as int) =~= s.skip(lit.len() as int));
            }
            if lit.is_prefix_of(s) {
                assert(s.subrange(0, lit.len() as int)[0] == s[0]);
                assert(tail =~= s.skip(1).subrange(0, tail.len() as int)) by {
                    assert forall|k: int| 0 <= k < tail.len() implies tail[k] == s.skip(1)[k] by {
                        assert(s.subrange(0, lit.len() as int)[k + 1] == s[k + 1]);
                    }
                }
            }
            if s[0] == lit[0] && tail.is_prefix_of(s.skip(1)) {
                assert(lit =~= s.subrange(0, lit.len() as int)) by {
                    assert forall|k: int| 0 <= k < lit.len() implies lit[k] == s[k] by {
                        if k > 0 {
                            assert(tail[k - 1] == s.skip(1).subrange(0, tail.len() as int)[k - 1]);
                        }
                    }
                }
            }
        }
    }
}

/// A pattern without `*`, `?` and `[` matches exactly the text that it spells.
pub proof fn law_literal(lit: Seq<char>, s: Seq<char>)
    requires
        is_literal(lit),
    ensures
        rule_match::glob(lit, s) == (s == lit),
{
    law_literal_start(lit, Seq::empty(), s);
    assert(lit + Seq::<char>::empty() =~= lit);
    if lit.is_prefix_of(s) && s.skip(lit.len() as int).len() == 0 {
        assert(s =~= lit);
    }
    if s == lit {
        assert(lit =~= s.subrange(0, lit.len() as int));
    }
}

/// A star matches any characters, none included: what follows it may match from any
/// position on.
pub proof fn law_star(rest: Seq<char>, s: Seq<char>)
    ensures
        rule_match::glob(seq!['*'] + rest, s) <==> exists|k: int|
            0 <= k <= s.len() && rule_match::glob(rest, #[trigger] s.skip(k)),
    decreases s.len(),
{
    let p = seq!['*'] + rest;
    assert(p.skip(1) =~= rest);
    assert(s.skip(0) =~= s);
    if s.len() > 0 {
        let t = s.skip(1);
        law_star(rest, t);
        if rule_match::glob(p, t) {
            let k = choose|k: int| 0 <= k <= t.len() && rule_match::glob(rest, #[trigger] t.skip(k));
            assert(t.skip(k) =~= s.skip(k + 1));
        }
        if exists|k: int| 0 <= k <= s.len() && rule_match::glob(rest, #[trigger] s.skip(k)) {
            let k = choose|k: int| 0 <= k <= s.len() && rule_match::glob(rest, #[trigger] s.skip(k));
            if k > 0 {
                assert(s.skip(k) =~= t.skip(k - 1));
            }
        }
    }
}

/// A star alone matches every text, the empty one included.
pub proof fn law_star_alone(s: Seq<char>)
    ensures
        rule_match::glob(seq!['*'], s),
{
    law_star(Seq::empty(), s);
    assert(seq!['*'] + Seq::<char>::empty() =~= seq!['*']);
    assert(rule_match::glob(Seq::empty(), s.skip(s.len() as int)));
}

/// Several stars in a row match what one star matches.
pub proof fn law_star_run(n: nat, rest: Seq<char>, s: Seq<char>)
    requires
        n >= 1,
    ensures
        rule_match::glob(Seq::new(n, |i: int| '*') + rest, s) == rule_match::glob(
            seq!['*'] + rest,
            s,
        ),
    decreases n,
{
    let p = Seq::new(n, |i: int| '*') + rest;
    if n == 1 {
        assert(p =~= seq!['*'] + rest);
    } else {
        law_star_run((n - 1) as nat, rest, s);
        rule_match::lemma_star_star(p, s);
        assert(p.skip(1) =~= Seq::new((n - 1) as nat, |i: int| '*') + rest);
    }
}

/// A literal and then a star match exactly what begins with the literal.
pub proof fn law_literal_star(lit: Seq<char>, s: Seq<char>)
    requires
        is_literal(lit),
    ensures
        rule_match::glob(lit.push('*'), s) == lit.is_prefix_of(s),
{
    let star = seq!['*'];
    assert(lit.push('*') =~= lit + star);
    law_literal_start(lit, star, s);
    let t = s.skip(lit.len() as int);
    law_star(Seq::empty(), t);
    assert(star + Seq::<char>::empty() =~= star);
    if lit.is_prefix_of(s) {
        assert(rule_match::glob(Seq::empty(), t.skip(t.len() as int)));
    }
}

/// A literal and then a question mark match exactly the literal with one more
/// character.
pub proof fn law_literal_question(lit: Seq<char>, s: Seq<char>)
    requires
        is_literal(lit),
    ensures
        rule_match::glob(lit.push('?'), s) == (lit.is_prefix_of(s) && s.len()
            == lit.len() + 1),
{
    let one = seq!['?'];
    assert(lit.push('?') =~= lit + one);
    law_literal_start(lit, one, s);
    if lit.is_prefix_of(s) {
        let t = s.skip(lit.len() as int);
        assert(one.skip(1) =~= Seq::<char>::empty());
        if t.len() > 0 {
            assert(rule_match::glob(one, t) == rule_match::glob(Seq::empty(), t.skip(1)));
            assert(rule_match::glob(Seq::empty(), t.skip(1)) == (t.skip(1).len() == 0));
        }
    }
}

/// A class that is not negated and holds one range accepts exactly the
/// characters of the range.
pub proof fn law_class_range(lo: char, hi: char, rest: Seq<char>, s: Seq<char>)
    requires
        lo != '!',
        lo != '^',
        hi != ']',
    ensures
        rule_match::glob(
            seq![
                '[',
                lo,
                '-',
                hi,
                ']',
            ] + rest,
            s,
        ) == (s.len() > 0 && lo <= s[0] <= hi && rule_match::glob(rest, s.skip(1))),
{
    let p = seq![
        '[',
        lo,
        '-',
        hi,
        ']',
    ] + rest;
    let item = (lo, hi);
    assert(rule_match::class_items(p, 4, false) == Some((Seq::<(char, char)>::empty(), 5int)));
    assert(rule_match::class_items(p, 1, true) == Some((seq![item] + Seq::<(char, char)>::empty(), 5int)));
    assert(seq![item] + Seq::<(char, char)>::empty() =~= seq![item]);
    assert(seq![item][0] == item);
    assert(p.skip(5) =~= rest);
}

/// A negated class that holds one range accepts exactly the characters outside
/// of the range.
pub proof fn law_class_negated(lo: char, hi: char, rest: Seq<char>, s: Seq<char>)
    requires
        hi != ']',
    ensures
        rule_match::glob(
            seq![
                '[',
                '!',
                lo,
                '-',
                hi,
                ']',
            ] + rest,
            s,
        ) == (s.len() > 0 && !(lo <= s[0] <= hi) && rule_match::glob(rest, s.skip(1))),
{
    let p = seq![
        '[',
        '!',
        lo,
        '-',
        hi,
        ']',
    ] + rest;
    let item = (lo, hi);
    assert(rule_match::class_items(p, 5, false) == Some((Seq::<(char, char)>::empty(), 6int)));
    assert(rule_match::class_items(p, 2, true) == Some((seq![item] + Seq::<(char, char)>::empty(), 6int)));
    assert(seq![item] + Seq::<(char, char)>::empty() =~= seq![item]);
    assert(seq![item][0] == item);
    assert(p.skip(6) =~= rest);
}

proof fn lemma_unclosed_items(p: Seq<char>, i: int, first: bool)
    requires
        0 <= i,
        forall|k: int| i <= k < p.len() ==> #[trigger] p[k] != ']',
    ensures
        rule_match::class_items(p, i, first) is None,
    decreases p.len() - i,
{
    if i < p.len() {
        lemma_unclosed_items(p, i + 1, false);
        if i + 2 < p.len() {
            lemma_unclosed_items(p, i + 3, false);
        }
    }
}

/// A class that is never closed matches nothing.
pub proof fn law_unclosed_class(p: Seq<char>, s: Seq<char>)
    requires
        p.len() > 0,
        p[0] == '[',
        forall|k: int| 0 <= k < p.len() ==> #[trigger] p[k] != ']',
    ensures
        !rule_match::glob(p, s),
{
    lemma_unclosed_items(p, 1, true);
    lemma_unclosed_items(p, 2, true);
}

/// A thread name that is too long matches no pattern.
pub proof fn law_long_name_never_matches(pattern: Seq<char>, name: Seq<char>)
    requires
        vstd::utf8::encode_utf8(name).len() >= crate::MAX_THREAD_LEN,
    ensures
        !rule_match::spec_fnmatch(pattern, name),
{
}

// ---------------------------------------------------------------------------
// Affinity
// ---------------------------------------------------------------------------
/// A thread that a thread rule with CPUs matches is bound by thread rules alone:
/// to all CPUs of all of them, and to no other.
pub proof fn law_thread_rules_win(
    pkg: Seq<char>,
    thread: Seq<char>,
    cfg: AppConfig,
    created: bool,
    k: int,
    cpu: int,
)
    requires
        thread.len() > 0,
        0 <= k < cfg.rules@.len(),
        rule_match::is_thread_match(cfg.rules@[k], pkg, thread),
        cfg.rules@[k].cpus@.contains(cpu),
    ensures
        ({
            let r = rule_match::settled(
                rule_match::planned(cfg.rules@, pkg, thread),
                pkg,
                cfg,
                created,
            );
            &&& r is Some
            &&& r->0.is_thread_rule
            &&& r->0.cpus == rule_match::thread_cpus(cfg.rules@, pkg, thread)
            &&& r->0.cpus.contains(cpu)
        }),
{
    assert(rule_match::thread_cpus(cfg.rules@, pkg, thread).contains(cpu));
}

/// A thread that no thread rule matches is bound by the rules for its whole
/// package, if they have CPUs.
pub proof fn law_package_rules_are_fallback(
    pkg: Seq<char>,
    thread: Seq<char>,
    cfg: AppConfig,
    created: bool,
    k: int,
    cpu: int,
)
    requires
        !rule_match::thread_matched(cfg.rules@, pkg, thread),
        0 <= k < cfg.rules@.len(),
        rule_match::is_package_rule(cfg.rules@[k], pkg),
        cfg.rules@[k].cpus@.contains(cpu),
    ensures
        ({
            let r = rule_match::settled(
                rule_match::planned(cfg.rules@, pkg, thread),
                pkg,
                cfg,
                created,
            );
            &&& r is Some
            &&& !r->0.is_thread_rule
            &&& r->0.cpus == rule_match::package_cpus(cfg.rules@, pkg)
            &&& r->0.cpus.contains(cpu)
        }),
{
    assert(rule_match::package_cpus(cfg.rules@, pkg).contains(cpu));
}

/// A thread of a package that no rule names is left alone.
pub proof fn law_no_rule_no_affinity(
    pkg: Seq<char>,
    thread: Seq<char>,
    cfg: AppConfig,
    created: bool,
)
    requires
        forall|k: int| 0 <= k < cfg.rules@.len() ==> (#[trigger] cfg.rules@[k]).pkg@ != pkg,
        !text::texts(cfg.has_thread_rules@).contains(pkg),
    ensures
        rule_match::settled(
            rule_match::planned(cfg.rules@, pkg, thread),
            pkg,
            cfg,
            created,
        ) is None,
{
    assert(rule_match::package_cpus(cfg.rules@, pkg) =~= Set::<int>::empty());
}

/// A thread of a package with thread rules is never left without a result: where
/// no rule gives it CPUs, it gets all that are present.
pub proof fn law_thread_rules_leave_nobody_out(
    pkg: Seq<char>,
    thread: Seq<char>,
    cfg: AppConfig,
    created: bool,
)
    requires
        text::texts(cfg.has_thread_rules@).contains(pkg),
    ensures
        ({
            let plan = rule_match::planned(cfg.rules@, pkg, thread);
            let r = rule_match::settled(plan, pkg, cfg, created);
            &&& r is Some
            &&& plan.cpus == Set::<int>::empty() ==> r->0.cpus == cfg.topo.present_cpus@
        }),
{
}

/// The CPU set directory that comes with thread rules is the one of exactly the
/// CPUs that the thread is bound to.
pub proof fn law_thread_dir_fits_cpus(
    pkg: Seq<char>,
    thread: Seq<char>,
    cfg: AppConfig,
    created: bool,
)
    ensures
        rule_match::settled(
            rule_match::planned(cfg.rules@, pkg, thread),
            pkg,
            cfg,
            created,
        ) matches Some(r) ==> r.is_thread_rule ==> r.cpuset_dir == (if created
            && cfg.topo.cpuset_enabled {
            cpuset::range_string(r.cpus)
        } else {
            Seq::empty()
        }),
{
}

/// The rules of a package, in order.
pub open spec fn rules_of(rules: Seq<AffinityRule>, pkg: Seq<char>) -> Seq<RuleView> {
    config::rules_view(rules).filter(|r: RuleView| r.pkg == pkg)
}

/// What a thread is bound to, and which directory it goes to, rests on the rules of its
/// package alone, and not on their order.
pub proof fn law_rule_order_is_irrelevant(
    a: Seq<AffinityRule>,
    b: Seq<AffinityRule>,
    pkg: Seq<char>,
    thread: Seq<char>,
)
    requires
        rules_of(a, pkg).to_multiset() == rules_of(b, pkg).to_multiset(),
    ensures
        rule_match::planned(a, pkg, thread) == rule_match::planned(b, pkg, thread),
{
    lemma_rules_into(a, b, pkg, thread);
    lemma_rules_into(b, a, pkg, thread);
    assert(rule_match::thread_cpus(a, pkg, thread) =~= rule_match::thread_cpus(b, pkg, thread));
    assert(rule_match::package_cpus(a, pkg) =~= rule_match::package_cpus(b, pkg));
    lemma_package_dir(a, b, pkg);
}

/// A filter keeps the members that pass it.
pub proof fn lemma_filter_members<A>(s: Seq<A>, f: spec_fn(A) -> bool, x: A)
    ensures
        s.filter(f).contains(x) <==> s.contains(x) && f(x),
    decreases s.len(),
{
    reveal(Seq::filter);
    if s.len() > 0 {
        let front = s.drop_last();
        let kept = front.filter(f);
        lemma_filter_members(front, f, x);
        assert(s =~= front.push(s.last()));
        lemma_push_members(front, s.last(), x);
        lemma_push_members(kept, s.last(), x);
    }
}

proof fn lemma_push_members<A>(s: Seq<A>, y: A, x: A)
    ensures
        s.push(y).contains(x) <==> s.contains(x) || x == y,
{
    let all = s.push(y);
    if s.contains(x) {
        let k = choose|k: int| 0 <= k < s.len() && s[k] == x;
        assert(all[k] == x);
    }
    assert(all[s.len() as int] == y);
    if all.contains(x) && x != y {
        let k = choose|k: int| 0 <= k < all.len() && all[k] == x;
        assert(s[k] == x);
    }
}

proof fn lemma_filter_multiset<A>(s: Seq<A>, f: spec_fn(A) -> bool)
    ensures
        s.filter(f).to_multiset() == s.to_multiset().filter(f),
    decreases s.len(),
{
    broadcast use vstd::multiset::group_multiset_axioms;

    reveal(Seq::filter);
    s.to_multiset_ensures();
    if s.len() == 0 {
        assert(s.filter(f) =~= s);
        assert(s.to_multiset().filter(f) =~= s.to_multiset()) by {
            assert forall|x: A| s.to_multiset().count(x) == 0 by {
                assert(!s.contains(x));
            }
        }
    } else {
        let front = s.drop_last();
        lemma_filter_multiset(front, f);
        front.to_multiset_ensures();
        front.filter(f).to_multiset_ensures();
        assert(s =~= front.push(s.last()));
        assert(s.to_multiset() =~= front.to_multiset().insert(s.last()));
        assert(s.filter(f).to_multiset() =~= s.to_multiset().filter(f));
    }
}

proof fn lemma_package_views(rules: Seq<AffinityRule>, pkg: Seq<char>)
    ensures
        config::rules_view(rule_match::package_rules(rules, pkg)) == rules_of(rules, pkg).filter(
            |r: RuleView| r.thread.len() == 0,
        ),
    decreases rules.len(),
{
    reveal(Seq::filter);
    let views = config::rules_view(rules);
    if rules.len() > 0 {
        let front = rules.drop_last();
        lemma_package_views(front, pkg);
        assert(views.drop_last() =~= config::rules_view(front));
        assert(views.last() == rules.last()@);
        let of_front = rules_of(front, pkg);
        if rules.last().pkg@ == pkg {
            assert(rules_of(rules, pkg) == of_front.push(rules.last()@));
            assert(of_front.push(rules.last()@).drop_last() =~= of_front);
        } else {
            assert(rules_of(rules, pkg) == of_front);
        }
        if rule_match::is_package_rule(rules.last(), pkg) {
            let kept = rule_match::package_rules(front, pkg);
            assert(rule_match::package_rules(rules, pkg) == kept.push(rules.last()));
            assert(config::rules_view(kept.push(rules.last())) =~= config::rules_view(kept).push(
                rules.last()@,
            ));
        }
    } else {
        assert(views =~= Seq::<RuleView>::empty());
        assert(rules_of(rules, pkg) =~= Seq::<RuleView>::empty());
        assert(config::rules_view(rule_match::package_rules(rules, pkg)) =~= Seq::<
            RuleView,
        >::empty());
    }
}

proof fn lemma_package_dir(a: Seq<AffinityRule>, b: Seq<AffinityRule>, pkg: Seq<char>)
    requires
        rules_of(a, pkg).to_multiset() == rules_of(b, pkg).to_multiset(),
    ensures
        rule_match::package_dir(a, pkg) == rule_match::package_dir(b, pkg),
{
    let whole = |r: RuleView| r.thread.len() == 0;
    let in_a = rule_match::package_rules(a, pkg);
    let in_b = rule_match::package_rules(b, pkg);
    let va = config::rules_view(in_a);
    let vb = config::rules_view(in_b);
    lemma_package_views(a, pkg);
    lemma_package_views(b, pkg);
    lemma_filter_multiset(rules_of(a, pkg), whole);
    lemma_filter_multiset(rules_of(b, pkg), whole);
    va.to_multiset_ensures();
    vb.to_multiset_ensures();
    assert(va.len() == vb.len());
    if in_a.len() == 1 {
        assert(va[0] == in_a[0]@ && vb[0] == in_b[0]@);
        assert(va.contains(va[0]));
        assert(vb.to_multiset().count(va[0]) > 0);
        assert(vb.contains(va[0]));
    }
}

proof fn lemma_rules_into(
    a: Seq<AffinityRule>,
    b: Seq<AffinityRule>,
    pkg: Seq<char>,
    thread: Seq<char>,
)
    requires
        rules_of(a, pkg).to_multiset() == rules_of(b, pkg).to_multiset(),
    ensures
        rule_match::thread_matched(a, pkg, thread) ==> rule_match::thread_matched(b, pkg, thread),
        rule_match::thread_cpus(a, pkg, thread).subset_of(
            rule_match::thread_cpus(b, pkg, thread),
        ),
        rule_match::package_cpus(a, pkg).subset_of(rule_match::package_cpus(b, pkg)),
{
    let mine = |r: RuleView| r.pkg == pkg;
    let va = config::rules_view(a);
    let vb = config::rules_view(b);
    rules_of(a, pkg).to_multiset_ensures();
    rules_of(b, pkg).to_multiset_ensures();
    assert forall|k: int| 0 <= k < a.len() && (#[trigger] a[k]).pkg@ == pkg implies exists|j: int|
        0 <= j < b.len() && (#[trigger] b[j])@ == a[k]@ by {
        assert(va[k] == a[k]@);
        lemma_filter_members(va, mine, a[k]@);
        lemma_filter_members(vb, mine, a[k]@);
        assert(rules_of(a, pkg).contains(a[k]@));
        assert(rules_of(b, pkg).to_multiset().count(a[k]@) > 0);
        let j = choose|j: int| 0 <= j < vb.len() && vb[j] == a[k]@;
        assert(b[j]@ == a[k]@);
    }
    if rule_match::thread_matched(a, pkg, thread) {
        let k = choose|k: int|
            0 <= k < a.len() && rule_match::is_thread_match(#[trigger] a[k], pkg, thread);
        let j = choose|j: int| 0 <= j < b.len() && (#[trigger] b[j])@ == a[k]@;
        lemma_same_view(a[k], b[j]);
        assert(rule_match::is_thread_match(b[j], pkg, thread));
    }
    assert forall|cpu: int| rule_match::thread_cpus(a, pkg, thread).contains(cpu) implies
        rule_match::thread_cpus(b, pkg, thread).contains(cpu) by {
        let k = choose|k: int|
            0 <= k < a.len() && rule_match::is_thread_match(#[trigger] a[k], pkg, thread)
                && a[k].cpus@.contains(cpu);
        let j = choose|j: int| 0 <= j < b.len() && (#[trigger] b[j])@ == a[k]@;
        lemma_same_view(a[k], b[j]);
        assert(rule_match::is_thread_match(b[j], pkg, thread));
    }
    assert forall|cpu: int| rule_match::package_cpus(a, pkg).contains(cpu) implies
        rule_match::package_cpus(b, pkg).contains(cpu) by {
        let k = choose|k: int|
            0 <= k < a.len() && rule_match::is_package_rule(#[trigger] a[k], pkg)
                && a[k].cpus@.contains(cpu);
        let j = choose|j: int| 0 <= j < b.len() && (#[trigger] b[j])@ == a[k]@;
        lemma_same_view(a[k], b[j]);
        assert(rule_match::is_package_rule(b[j], pkg));
    }
}

proof fn lemma_same_view(a: AffinityRule, b: AffinityRule)
    requires
        a@ == b@,
    ensures
        a.pkg@ == b.pkg@,
        a.thread@ == b.thread@,
        a.thread_pattern@ == b.thread_pattern@,
        a.cpus@ == b.cpus@,
{
    assert(a@.pkg == b@.pkg && a@.thread == b@.thread);
    assert(a@.thread_pattern == b@.thread_pattern && a@.cpus == b@.cpus);
}

// ---------------------------------------------------------------------------
// Task names
// ---------------------------------------------------------------------------
proof fn lemma_first_beginning(pkgs: Seq<Seq<char>>, comm: Seq<char>, i: int)
    requires
        0 <= i,
    ensures
        match rule_match::first_beginning(pkgs, comm, i) {
            Some(p) => pkgs.contains(p) && comm.is_prefix_of(p),
            None => forall|k: int| i <= k < pkgs.len() ==> !comm.is_prefix_of(#[trigger] pkgs[k]),
        },
    decreases pkgs.len() - i,
{
    if i < pkgs.len() && !comm.is_prefix_of(pkgs[i]) {
        lemma_first_beginning(pkgs, comm, i + 1);
    }
}

proof fn lemma_first_ending(pkgs: Seq<Seq<char>>, comm: Seq<char>, i: int)
    requires
        0 <= i,
    ensures
        match rule_match::first_ending(pkgs, comm, i) {
            Some(p) => pkgs.contains(p) && comm.is_suffix_of(p),
            None => forall|k: int| i <= k < pkgs.len() ==> !comm.is_suffix_of(#[trigger] pkgs[k]),
        },
    decreases pkgs.len() - i,
{
    if i < pkgs.len() && !comm.is_suffix_of(pkgs[i]) {
        lemma_first_ending(pkgs, comm, i + 1);
    }
}

/// A task name stands for a configured package, of which it is the whole name, the
/// beginning, or the end; and it stands for none only if there is no such package
/// or if it is too short to be part of a name.
pub proof fn law_comm_stands_for_a_package(comm: Seq<char>, pkgs: Seq<Seq<char>>)
    ensures
        match rule_match::spec_comm_to_pkg(comm, pkgs) {
            Some(p) => pkgs.contains(p) && (p == comm || comm.is_prefix_of(p)
                || comm.is_suffix_of(p)),
            None => {
                &&& !pkgs.contains(comm)
                &&& vstd::utf8::encode_utf8(comm).len() >= rule_match::COMM_PART_LEN ==> forall|
                    k: int,
                |
                    0 <= k < pkgs.len() ==> !comm.is_prefix_of(#[trigger] pkgs[k])
                        && !comm.is_suffix_of(pkgs[k])
            },
        },
{
    lemma_first_beginning(pkgs, comm, 0);
    lemma_first_ending(pkgs, comm, 0);
}

} // verus!
