//! What holds of the lines of a configuration file, character by character.

use vstd::prelude::*;

use crate::config;
use crate::config::AppConfig;
use crate::config::Context;
use crate::config::Reading;
use crate::config::RuleView;
use crate::config_laws;
use crate::cpuset;
use crate::cpuset::CpuTopology;
use crate::text;

verus! {

/// Whether `c` is in `t` first at position `p`.
pub open spec fn first_at(t: Seq<char>, c: char, p: int) -> bool {
    &&& 0 <= p < t.len()
    &&& t[p] == c
    &&& forall|k: int| 0 <= k < p ==> #[trigger] t[k] != c
}

/// Whether `c` is nowhere in `t`.
pub open spec fn free_of(t: Seq<char>, c: char) -> bool {
    forall|k: int| 0 <= k < t.len() ==> #[trigger] t[k] != c
}

/// Whether a line, without the white space around it, is more than a comment.
pub open spec fn speaks(t: Seq<char>) -> bool {
    &&& t.len() > 0
    &&& t[0] != '#'
    &&& !(t.len() >= 2 && t[0] == '/' && t[1] == '/')
}

/// Whether `after` differs from `before` by no rule and so many faults.
pub open spec fn adds_faults(before: Reading, after: Reading, faults: nat) -> bool {
    after.rules == before.rules && after.faults == before.faults + faults
}

/// Whether `after` differs from `before` by this rule, put behind the others, and so many
/// faults, if the package has fewer than 128 bytes, the thread fewer than 32, and at least
/// one CPU is named; and otherwise by no rule and one fault more.
pub open spec fn adds_rule(
    before: Reading,
    after: Reading,
    pkg: Seq<char>,
    thread: Seq<char>,
    cpus: Seq<char>,
    topo: CpuTopology,
    faults: nat,
) -> bool {
    let set = cpuset::spec_parse_cpu_spec(cpus, topo);
    if vstd::utf8::encode_utf8(pkg).len() < 128 && vstd::utf8::encode_utf8(thread).len() < 32
        && exists|cpu: int| set.contains(cpu) {
        &&& after.faults == before.faults + faults
        &&& after.rules.len() == before.rules.len() + 1
        &&& after.rules.drop_last() == before.rules
        &&& after.rules.last().pkg == pkg
        &&& after.rules.last().thread == thread
        &&& after.rules.last().thread_pattern == thread
        &&& after.rules.last().cpus == set
        &&& after.rules.last().cpuset_dir == if thread.len() == 0 && topo.cpuset_enabled {
            cpuset::range_string(set)
        } else {
            Seq::empty()
        }
    } else {
        adds_faults(before, after, faults + 1)
    }
}

proof fn lemma_speaks(t: Seq<char>)
    ensures
        speaks(t) == !config::is_ignored(t),
{
    reveal_strlit("//");
    if t.len() >= 2 && t[0] == '/' && t[1] == '/' {
        assert("//"@ =~= t.subrange(0, 2));
    }
    if "//"@.is_prefix_of(t) {
        assert(t.subrange(0, 2)[0] == "//"@[0]);
        assert(t.subrange(0, 2)[1] == "//"@[1]);
    }
}

proof fn lemma_no_member(s: Set<int>)
    ensures
        (exists|cpu: int| s.contains(cpu)) == (s != Set::<int>::empty()),
{
    if !(exists|cpu: int| s.contains(cpu)) {
        assert(s =~= Set::<int>::empty());
    }
}

proof fn lemma_rule_taken(r: Reading, line: Seq<char>, topo: CpuTopology)
    ensures
        ({
            let e = config::line_effect(r.context, text::spec_trim(line));
            let n = config::read_line(r, line, topo);
            &&& n.context == e.next
            &&& e.rule is None ==> adds_faults(r, n, e.faults)
            &&& e.rule matches Some(rule) ==> adds_rule(
                r,
                n,
                rule.pkg,
                rule.thread,
                rule.cpus,
                topo,
                e.faults,
            )
        }),
{
    let e = config::line_effect(r.context, text::spec_trim(line));
    let n = config::read_line(r, line, topo);
    if let Some(rule) = e.rule {
        lemma_no_member(cpuset::spec_parse_cpu_spec(rule.cpus, topo));
        if config::is_usable(rule, topo) {
            assert(n.rules.drop_last() =~= r.rules);
        }
    }
}

/// An empty line and a comment change nothing.
pub proof fn law_silent_line(r: Reading, line: Seq<char>, topo: CpuTopology)
    requires
        !speaks(text::spec_trim(line)),
    ensures
        config::read_line(r, line, topo) == r,
{
    lemma_speaks(text::spec_trim(line));
    assert(config::read_line(r, line, topo) =~= r);
}

/// In a block, a line up to its first closing brace, if it has one, says `thread=cpus`,
/// split at the first equals sign, or nothing, and is a fault otherwise. A closing brace
/// ends the block.
pub proof fn law_line_in_block(
    r: Reading,
    pkg: Seq<char>,
    line: Seq<char>,
    topo: CpuTopology,
    close: int,
    equals: int,
)
    requires
        r.context == Context::Block(pkg),
        speaks(text::spec_trim(line)),
    ensures
        ({
            let t = text::spec_trim(line);
            let n = config::read_line(r, line, topo);
            let closed = first_at(t, '}', close);
            let body = if closed {
                text::spec_trim(t.take(close))
            } else {
                t
            };
            closed || free_of(t, '}') ==> {
                &&& n.context == if closed {
                    Context::Idle
                } else {
                    Context::Block(pkg)
                }
                &&& body.len() == 0 ==> adds_faults(r, n, 0)
                &&& body.len() > 0 && free_of(body, '=') ==> adds_faults(r, n, 1)
                &&& first_at(body, '=', equals) ==> adds_rule(
                    r,
                    n,
                    pkg,
                    text::spec_trim(body.take(equals)),
                    text::spec_trim(body.skip(equals + 1)),
                    topo,
                    0,
                )
            }
        }),
{
    let t = text::spec_trim(line);
    lemma_speaks(t);
    lemma_rule_taken(r, line, topo);
    let body = if first_at(t, '}', close) {
        text::spec_trim(t.take(close))
    } else {
        t
    };
    if first_at(t, '}', close) {
        text::lemma_first_of_at(t, '}', '}', close);
    } else if free_of(t, '}') {
        text::lemma_first_of_at(t, '}', '}', t.len() as int);
    }
    if first_at(body, '=', equals) {
        text::lemma_first_of_at(body, '=', '=', equals);
    } else if free_of(body, '=') {
        text::lemma_first_of_at(body, '=', '=', body.len() as int);
    }
}

/// 1 if a package still waits for its block.
pub open spec fn in_vain(ctx: Context) -> nat {
    match ctx {
        Context::Pending(_) => 1,
        _ => 0,
    }
}

/// Outside of blocks, a line without an equals sign and an opening brace says nothing. It
/// is a fault only if a package waits for its block.
pub proof fn law_line_without_separator(r: Reading, line: Seq<char>, topo: CpuTopology)
    requires
        !(r.context is Block),
        speaks(text::spec_trim(line)),
        free_of(text::spec_trim(line), '='),
        free_of(text::spec_trim(line), '{'),
    ensures
        ({
            let n = config::read_line(r, line, topo);
            n.context == Context::Idle && adds_faults(r, n, in_vain(r.context))
        }),
{
    let t = text::spec_trim(line);
    lemma_speaks(t);
    lemma_rule_taken(r, line, topo);
    text::lemma_first_of_at(t, '=', '{', t.len() as int);
}

/// Outside of blocks, a line whose first separator is an equals sign says `pkg=cpus`. An
/// opening brace in what follows ends the CPUs, which may then be left out, and opens the
/// block of the package. Without CPUs and brace the package waits for its block. A package
/// that waited before did so in vain.
pub proof fn law_line_with_equals(
    r: Reading,
    line: Seq<char>,
    topo: CpuTopology,
    at: int,
    brace: int,
)
    requires
        !(r.context is Block),
        speaks(text::spec_trim(line)),
        first_at(text::spec_trim(line), '=', at),
        free_of(text::spec_trim(line).take(at), '{'),
    ensures
        ({
            let t = text::spec_trim(line);
            let n = config::read_line(r, line, topo);
            let pkg = text::spec_trim(t.take(at));
            let value = text::spec_trim(t.skip(at + 1));
            let faults = in_vain(r.context);
            &&& free_of(value, '{') && value.len() > 0 ==> n.context == Context::Idle && adds_rule(
                r,
                n,
                pkg,
                Seq::empty(),
                value,
                topo,
                faults,
            )
            &&& value.len() == 0 && pkg.len() > 0 ==> n.context == Context::Pending(pkg)
                && adds_faults(r, n, faults)
            &&& value.len() == 0 && pkg.len() == 0 ==> n.context == Context::Idle && adds_faults(
                r,
                n,
                faults,
            )
            &&& first_at(value, '{', brace) ==> {
                let cpus = text::spec_trim(value.take(brace));
                &&& n.context == Context::Block(pkg)
                &&& cpus.len() == 0 ==> adds_faults(r, n, faults)
                &&& cpus.len() > 0 ==> adds_rule(r, n, pkg, Seq::empty(), cpus, topo, faults)
            }
        }),
{
    let t = text::spec_trim(line);
    lemma_speaks(t);
    lemma_rule_taken(r, line, topo);
    assert forall|k: int| 0 <= k < at implies #[trigger] t[k] != '=' && t[k] != '{' by {
        assert(t.take(at)[k] == t[k]);
    }
    text::lemma_first_of_at(t, '=', '{', at);
    let value = text::spec_trim(t.skip(at + 1));
    if first_at(value, '{', brace) {
        text::lemma_first_of_at(value, '{', '{', brace);
    } else if free_of(value, '{') {
        text::lemma_first_of_at(value, '{', '{', value.len() as int);
    }
}

/// Outside of blocks, a line whose first separator is an opening brace with no closing
/// brace behind it opens the block of the package before it, or, if there is none, of the
/// package that waits. It is a fault if there is neither, or if a package waited in vain.
pub proof fn law_line_that_opens(r: Reading, line: Seq<char>, topo: CpuTopology, at: int)
    requires
        !(r.context is Block),
        speaks(text::spec_trim(line)),
        first_at(text::spec_trim(line), '{', at),
        free_of(text::spec_trim(line).take(at), '='),
        free_of(text::spec_trim(text::spec_trim(line).skip(at + 1)), '}'),
    ensures
        ({
            let t = text::spec_trim(line);
            let n = config::read_line(r, line, topo);
            let pkg = text::spec_trim(t.take(at));
            &&& pkg.len() > 0 ==> n.context == Context::Block(pkg) && adds_faults(
                r,
                n,
                in_vain(r.context),
            )
            &&& pkg.len() == 0 ==> match r.context {
                Context::Pending(name) => n.context == Context::Block(name) && adds_faults(r, n, 0),
                _ => n.context == Context::Idle && adds_faults(r, n, 1),
            }
        }),
{
    let t = text::spec_trim(line);
    lemma_speaks(t);
    lemma_rule_taken(r, line, topo);
    assert forall|k: int| 0 <= k < at implies #[trigger] t[k] != '=' && t[k] != '{' by {
        assert(t.take(at)[k] == t[k]);
    }
    text::lemma_first_of_at(t, '=', '{', at);
    let tail = text::spec_trim(t.skip(at + 1));
    text::lemma_first_of_at(tail, '}', '}', tail.len() as int);
}

/// Outside of blocks, a line whose first separator is an opening brace with a closing brace
/// behind it says `pkg{thread}=cpus`. An opening brace behind the equals sign ends the CPUs,
/// which may then be left out, and opens the block of the package. Without an equals sign
/// the line is a fault. A package that waited before did so in vain.
pub proof fn law_line_in_compact_form(
    r: Reading,
    line: Seq<char>,
    topo: CpuTopology,
    at: int,
    close: int,
    equals: int,
    brace: int,
)
    requires
        !(r.context is Block),
        speaks(text::spec_trim(line)),
        first_at(text::spec_trim(line), '{', at),
        free_of(text::spec_trim(line).take(at), '='),
        first_at(text::spec_trim(text::spec_trim(line).skip(at + 1)), '}', close),
    ensures
        ({
            let t = text::spec_trim(line);
            let n = config::read_line(r, line, topo);
            let pkg = text::spec_trim(t.take(at));
            let tail = text::spec_trim(t.skip(at + 1));
            let thread = text::spec_trim(tail.take(close));
            let rest = text::spec_trim(tail.skip(close + 1));
            let value = text::spec_trim(rest.skip(equals + 1));
            let faults = in_vain(r.context);
            &&& free_of(rest, '=') ==> n.context == Context::Idle && adds_faults(r, n, faults + 1)
            &&& first_at(rest, '=', equals) && free_of(value, '{') ==> n.context == Context::Idle
                && adds_rule(r, n, pkg, thread, value, topo, faults)
            &&& first_at(rest, '=', equals) && first_at(value, '{', brace) ==> {
                let cpus = text::spec_trim(value.take(brace));
                &&& n.context == Context::Block(pkg)
                &&& cpus.len() == 0 ==> adds_faults(r, n, faults)
                &&& cpus.len() > 0 ==> adds_rule(r, n, pkg, thread, cpus, topo, faults)
            }
        }),
{
    let t = text::spec_trim(line);
    lemma_speaks(t);
    lemma_rule_taken(r, line, topo);
    assert forall|k: int| 0 <= k < at implies #[trigger] t[k] != '=' && t[k] != '{' by {
        assert(t.take(at)[k] == t[k]);
    }
    text::lemma_first_of_at(t, '=', '{', at);
    let tail = text::spec_trim(t.skip(at + 1));
    text::lemma_first_of_at(tail, '}', '}', close);
    let rest = text::spec_trim(tail.skip(close + 1));
    let value = text::spec_trim(rest.skip(equals + 1));
    if first_at(rest, '=', equals) {
        text::lemma_first_of_at(rest, '=', '=', equals);
        if first_at(value, '{', brace) {
            text::lemma_first_of_at(value, '{', '{', brace);
        } else if free_of(value, '{') {
            text::lemma_first_of_at(value, '{', '{', value.len() as int);
        }
    } else if free_of(rest, '=') {
        text::lemma_first_of_at(rest, '=', '=', rest.len() as int);
    }
}

// ---------------------------------------------------------------------------
// Files
// ---------------------------------------------------------------------------
/// A file is read from its start, outside of blocks, without rules and faults, one line
/// after the other; a line ends at a newline or with the file.
pub proof fn law_file_is_its_lines(
    before: Seq<char>,
    line: Seq<char>,
    topo: CpuTopology,
)
    requires
        free_of(line, '\n'),
    ensures
        ({
            let first = config::read_content(line, topo);
            let start = Reading { rules: Seq::empty(), faults: 0, context: Context::Idle };
            first == config::read_line(start, line, topo)
        }),
        config::read_content(before.push('\n') + line, topo) == config::read_line(
            config::read_content(before, topo),
            line,
            topo,
        ),
{
    let start = config::nothing_read();
    text::lemma_split_none(line, '\n');
    let one = seq![line];
    assert(one.drop_last() =~= Seq::<Seq<char>>::empty());
    assert(config::read_lines(start, one.drop_last(), topo) == start);
    assert(start =~= (Reading { rules: Seq::empty(), faults: 0, context: Context::Idle }));
    text::lemma_split_join(before, '\n', line);
    config_laws::law_reading_goes_on(start, text::spec_split(before, '\n'), one, topo);
    let mid = config::read_content(before, topo);
    assert(config::read_lines(mid, one.drop_last(), topo) == mid);
    assert(one.last() == line);
}

/// The rules of a file are those that reading it to its end gives, and its faults those
/// and one more exactly if a block is open or a package waits at the end.
pub proof fn law_end_of_file(content: Seq<char>, topo: CpuTopology)
    ensures
        ({
            let r = config::read_content(content, topo);
            &&& config::file_rules(content, topo) == r.rules
            &&& r.context == Context::Idle ==> config::file_faults(content, topo) == r.faults
            &&& r.context != Context::Idle ==> config::file_faults(content, topo) == r.faults + 1
        }),
{
    let r = config::read_content(content, topo);
    match r.context {
        Context::Idle => {},
        _ => {},
    }
}

/// A file that is the line `pkg=cpus` has exactly one rule and no fault if the package has
/// fewer than 128 bytes and the CPUs name at least one CPU, and no rule and one fault
/// otherwise.
pub proof fn law_file_of_one_rule(pkg: Seq<char>, cpus: Seq<char>, topo: CpuTopology)
    requires
        config_laws::is_plain(pkg),
        pkg.len() > 0 ==> speaks(pkg),
        text::spec_trim(cpus) == cpus,
        cpus.len() > 0,
        free_of(cpus, '{'),
        free_of(pkg, '\n'),
        free_of(cpus, '\n'),
    ensures
        ({
            let content = pkg.push('=') + cpus;
            let set = cpuset::spec_parse_cpu_spec(cpus, topo);
            let rules = config::file_rules(content, topo);
            if vstd::utf8::encode_utf8(pkg).len() < 128 && exists|cpu: int| set.contains(cpu) {
                &&& rules.len() == 1
                &&& rules[0].pkg == pkg
                &&& rules[0].thread.len() == 0
                &&& rules[0].cpus == set
                &&& config::file_faults(content, topo) == 0
            } else {
                rules.len() == 0 && config::file_faults(content, topo) == 1
            }
        }),
{
    let line = pkg.push('=') + cpus;
    let n = pkg.len() as int;
    let start = Reading { rules: Seq::empty(), faults: 0, context: Context::Idle };
    text::lemma_trim_edges(pkg);
    text::lemma_trim_edges(cpus);
    if n > 0 {
        assert(line[0] == pkg[0]);
    } else {
        assert(line[0] == '=');
    }
    assert(line.last() == cpus.last());
    text::lemma_trim_tight(line);
    assert forall|k: int| 0 <= k < line.len() implies #[trigger] line[k] != '\n' by {
        if k < n {
            assert(line[k] == pkg[k]);
        } else if k > n {
            assert(line[k] == cpus[k - n - 1]);
        }
    }
    law_file_is_its_lines(Seq::empty(), line, topo);
    if n >= 2 {
        assert(line[1] == pkg[1]);
    } else if n == 1 {
        assert(line[1] == '=');
    }
    assert(line.take(n) =~= pkg);
    assert(line.skip(n + 1) =~= cpus);
    assert forall|k: int| 0 <= k < n implies #[trigger] line[k] != '=' by {
        assert(line[k] == pkg[k]);
    }
    law_line_with_equals(start, line, topo, n, 0);
    law_end_of_file(line, topo);
    assert(vstd::utf8::encode_utf8(Seq::<char>::empty()).len() == 0);
    let read = config::read_line(start, line, topo);
    if read.rules.len() == 1 {
        assert(read.rules.last() == read.rules[0]);
    }
}

// ---------------------------------------------------------------------------
// Configurations
// ---------------------------------------------------------------------------
/// One more rule adds its package behind the others unless it is listed or, where only
/// thread rules count, the rule is for the whole package.
pub proof fn law_packages_grow(rules: Seq<RuleView>, rule: RuleView, threads_only: bool)
    ensures
        config::named_packages(Seq::empty(), threads_only).len() == 0,
        ({
            let before = config::named_packages(rules, threads_only);
            let after = config::named_packages(rules.push(rule), threads_only);
            if before.contains(rule.pkg) || (threads_only && rule.thread.len() == 0) {
                after == before
            } else {
                after == before.push(rule.pkg)
            }
        }),
{
    assert(rules.push(rule).drop_last() =~= rules);
}

/// A loaded configuration holds the rules of the file in their order, the packages that
/// they name, those that thread rules name, the topology and the name of the file.
pub proof fn law_loaded_configuration(
    cfg: AppConfig,
    file: Seq<char>,
    content: Seq<char>,
    topo: CpuTopology,
    k: int,
)
    requires
        config::is_config_of(cfg, file, content, topo),
        0 <= k < cfg.rules@.len(),
    ensures
        ({
            let rules = config::file_rules(content, topo);
            &&& cfg.rules@.len() == rules.len()
            &&& cfg.rules@[k].pkg@ == rules[k].pkg
            &&& cfg.rules@[k].thread@ == rules[k].thread
            &&& cfg.rules@[k].thread_pattern@ == rules[k].thread_pattern
            &&& cfg.rules@[k].cpuset_dir@ == rules[k].cpuset_dir
            &&& cfg.rules@[k].cpus@ == rules[k].cpus
            &&& text::texts(cfg.pkgs@) == config::named_packages(rules, false)
            &&& text::texts(cfg.has_thread_rules@) == config::named_packages(rules, true)
            &&& cfg.topo == topo
            &&& cfg.config_file@ == file
        }),
{
    assert(config::rules_view(cfg.rules@).len() == cfg.rules@.len());
    assert(config::rules_view(cfg.rules@)[k] == cfg.rules@[k]@);
    assert(cfg.rules@[k]@.pkg == cfg.rules@[k].pkg@);
}

/// Settling takes the directory from exactly those rules for which it could not be made,
/// and changes nothing else.
pub proof fn law_settled_directories(
    before: AppConfig,
    created: Seq<bool>,
    after: AppConfig,
    k: int,
)
    requires
        config::dirs_settled(before, created, after),
        0 <= k < before.rules@.len(),
    ensures
        after.rules@.len() == before.rules@.len(),
        k < created.len() && created[k] ==> after.rules@[k].cpuset_dir@
            == before.rules@[k].cpuset_dir@,
        k >= created.len() || !created[k] ==> after.rules@[k].cpuset_dir@.len() == 0,
        after.rules@[k].pkg@ == before.rules@[k].pkg@,
        after.rules@[k].thread@ == before.rules@[k].thread@,
        after.rules@[k].thread_pattern@ == before.rules@[k].thread_pattern@,
        after.rules@[k].cpus@ == before.rules@[k].cpus@,
        after.pkgs == before.pkgs,
        after.has_thread_rules == before.has_thread_rules,
        after.topo == before.topo,
        after.config_file == before.config_file,
{
    let (a, b) = (after.rules@[k]@, before.rules@[k]@);
    assert(a.pkg == b.pkg && a.thread == b.thread && a.cpus == b.cpus);
    assert(a.thread_pattern == b.thread_pattern);
    assert(a.cpuset_dir == after.rules@[k].cpuset_dir@);
}

/// A file is read again exactly if it was modified at another time than the reading that
/// counts, or if none counts. A reading counts exactly if it is without faults.
pub proof fn law_reading_that_counts(last_mtime: i64, mtime: i64, faults: nat)
    ensures
        config::is_changed(last_mtime, mtime) <==> mtime != last_mtime || last_mtime == -1,
        faults == 0 ==> config::counted_mtime(last_mtime, mtime, faults) == mtime,
        faults > 0 ==> config::counted_mtime(last_mtime, mtime, faults) == last_mtime,
{
}

} // verus!
