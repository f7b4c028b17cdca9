//! What holds of configuration files and of loading them.

use vstd::prelude::*;

use crate::config;
use crate::config::AppConfig;
use crate::config::Context;
use crate::config::LineEffect;
use crate::config::Reading;
use crate::config::RuleText;
use crate::config::RuleView;
use crate::cpuset;
use crate::cpuset::CpuTopology;
use crate::text;

verus! {

// ---------------------------------------------------------------------------
// Reading line by line
// ---------------------------------------------------------------------------
/// To read lines is to read the first of them and then, from where that ended, the
/// others.
pub proof fn law_reading_goes_on(
    start: Reading,
    a: Seq<Seq<char>>,
    b: Seq<Seq<char>>,
    topo: CpuTopology,
)
    ensures
        config::read_lines(start, a + b, topo) == config::read_lines(
            config::read_lines(start, a, topo),
            b,
            topo,
        ),
    decreases b.len(),
{
    if b.len() == 0 {
        assert(a + b =~= a);
    } else {
        law_reading_goes_on(start, a, b.drop_last(), topo);
        assert((a + b).drop_last() =~= a + b.drop_last());
        assert((a + b).last() == b.last());
    }
}

/// A comment or an empty line anywhere in a file changes nothing.
pub proof fn law_comments_change_nothing(
    start: Reading,
    before: Seq<Seq<char>>,
    line: Seq<char>,
    after: Seq<Seq<char>>,
    topo: CpuTopology,
)
    requires
        config::is_ignored(text::spec_trim(line)),
    ensures
        config::read_lines(start, before.push(line) + after, topo) == config::read_lines(
            start,
            before + after,
            topo,
        ),
{
    law_reading_goes_on(start, before.push(line), after, topo);
    law_reading_goes_on(start, before, after, topo);
    assert(before.push(line).drop_last() =~= before);
    let r = config::read_lines(start, before, topo);
    assert(config::read_line(r, line, topo) =~= r);
}

// ---------------------------------------------------------------------------
// The forms of a rule
// ---------------------------------------------------------------------------
/// Whether `s` has no white space around it and holds none of `=`, `{` and `}`.
pub open spec fn is_plain(s: Seq<char>) -> bool {
    &&& text::spec_trim(s) == s
    &&& forall|k: int|
        0 <= k < s.len() ==> #[trigger] s[k] != '=' && s[k] != '{' && s[k] != '}'
}

/// Whether `s` can stand at the start of a line without making it a comment.
pub open spec fn is_no_comment(s: Seq<char>) -> bool {
    s.len() == 0 || !config::is_ignored(s)
}

/// Whether `s` neither starts nor ends with white space.
spec fn is_tight(s: Seq<char>) -> bool {
    s.len() > 0 ==> !text::is_white_space(s[0]) && !text::is_white_space(s.last())
}

proof fn lemma_plain_tight(s: Seq<char>)
    requires
        text::spec_trim(s) == s,
    ensures
        is_tight(s),
{
    text::lemma_trim_edges(s);
}

proof fn lemma_not_ignored(s: Seq<char>, c: char, rest: Seq<char>)
    requires
        is_no_comment(s),
        c != '#',
        c != '/',
    ensures
        !config::is_ignored(s.push(c) + rest),
{
    let line = s.push(c) + rest;
    reveal_strlit("//");
    if s.len() == 0 {
        assert(line[0] == c);
        if "//"@.is_prefix_of(line) {
            assert(line.subrange(0, 2)[0] == line[0]);
            assert("//"@[0] == '/');
        }
    } else {
        assert(line[0] == s[0]);
        if "//"@.is_prefix_of(line) {
            assert(line.subrange(0, 2)[0] == "//"@[0]);
            assert(line.subrange(0, 2)[1] == "//"@[1]);
            if s.len() == 1 {
                assert(line[1] == c);
            } else {
                assert(line[1] == s[1]);
                assert("//"@ =~= s.subrange(0, 2));
            }
        }
    }
}

/// Outside of blocks, `pkg=cpus` is a rule for the package.
pub proof fn law_package_line(pkg: Seq<char>, cpus: Seq<char>)
    requires
        is_plain(pkg),
        is_no_comment(pkg),
        text::spec_trim(cpus) == cpus,
        cpus.len() > 0,
        text::index_of(cpus, '{') is None,
    ensures
        config::line_effect(Context::Idle, text::spec_trim(pkg.push('=') + cpus)) == (LineEffect {
            rule: Some(RuleText { pkg, thread: Seq::empty(), cpus }),
            faults: 0,
            next: Context::Idle,
        }),
{
    let line = pkg.push('=') + cpus;
    lemma_plain_tight(pkg);
    lemma_plain_tight(cpus);
    if pkg.len() > 0 {
        assert(line[0] == pkg[0]);
    }
    assert(line.last() == cpus.last());
    text::lemma_trim_tight(line);
    lemma_not_ignored(pkg, '=', cpus);
    assert forall|k: int| 0 <= k < pkg.len() implies #[trigger] line[k] != '=' && line[k] != '{' by {
        assert(line[k] == pkg[k]);
    }
    text::lemma_first_of_at(line, '=', '{', pkg.len() as int);
    assert(line.take(pkg.len() as int) =~= pkg);
    assert(line.skip(pkg.len() as int + 1) =~= cpus);
}

/// Outside of blocks, `pkg{thread}=cpus` is a rule for threads of the package.
pub proof fn law_compact_line(pkg: Seq<char>, thread: Seq<char>, cpus: Seq<char>)
    requires
        is_plain(pkg),
        is_no_comment(pkg),
        is_plain(thread),
        text::spec_trim(cpus) == cpus,
        text::index_of(cpus, '{') is None,
    ensures
        config::line_effect(
            Context::Idle,
            text::spec_trim(pkg.push('{') + thread.push('}').push('=') + cpus),
        ) == (LineEffect {
            rule: Some(RuleText { pkg, thread, cpus }),
            faults: 0,
            next: Context::Idle,
        }),
{
    let tail = thread.push('}').push('=') + cpus;
    let line = pkg.push('{') + thread.push('}').push('=') + cpus;
    assert(line =~= pkg.push('{') + tail);
    lemma_plain_tight(pkg);
    lemma_plain_tight(thread);
    lemma_plain_tight(cpus);
    if pkg.len() > 0 {
        assert(line[0] == pkg[0]);
    } else {
        assert(line[0] == '{');
    }
    if cpus.len() > 0 {
        assert(line.last() == cpus.last());
        assert(tail.last() == cpus.last());
    } else {
        assert(line.last() == '=');
        assert(tail.last() == '=');
    }
    if thread.len() > 0 {
        assert(tail[0] == thread[0]);
    } else {
        assert(tail[0] == '}');
    }
    text::lemma_trim_tight(line);
    text::lemma_trim_tight(tail);
    lemma_not_ignored(pkg, '{', tail);
    assert forall|k: int| 0 <= k < pkg.len() implies #[trigger] line[k] != '=' && line[k] != '{' by {
        assert(line[k] == pkg[k]);
    }
    text::lemma_first_of_at(line, '=', '{', pkg.len() as int);
    assert(line.take(pkg.len() as int) =~= pkg);
    assert(line.skip(pkg.len() as int + 1) =~= tail);
    assert forall|k: int| 0 <= k < thread.len() implies #[trigger] tail[k] != '}' by {
        assert(tail[k] == thread[k]);
    }
    text::lemma_first_of_at(tail, '}', '}', thread.len() as int);
    assert(tail.take(thread.len() as int) =~= thread);
    let rest = seq!['='] + cpus;
    assert(tail.skip(thread.len() as int + 1) =~= rest);
    assert(rest[0] == '=');
    if cpus.len() > 0 {
        assert(rest.last() == cpus.last());
    }
    text::lemma_trim_tight(rest);
    text::lemma_first_of_at(rest, '=', '=', 0);
    assert(rest.skip(1) =~= cpus);
}

/// In the block of a package, `thread=cpus` is a rule for threads of the package.
pub proof fn law_block_line(pkg: Seq<char>, thread: Seq<char>, cpus: Seq<char>)
    requires
        is_plain(thread),
        is_no_comment(thread),
        text::spec_trim(cpus) == cpus,
        text::index_of(cpus, '}') is None,
    ensures
        config::line_effect(Context::Block(pkg), text::spec_trim(thread.push('=') + cpus)) == (
        LineEffect {
            rule: Some(RuleText { pkg, thread, cpus }),
            faults: 0,
            next: Context::Block(pkg),
        }),
{
    let line = thread.push('=') + cpus;
    lemma_plain_tight(thread);
    lemma_plain_tight(cpus);
    if thread.len() > 0 {
        assert(line[0] == thread[0]);
    } else {
        assert(line[0] == '=');
    }
    if cpus.len() > 0 {
        assert(line.last() == cpus.last());
    } else {
        assert(line.last() == '=');
    }
    text::lemma_trim_tight(line);
    lemma_not_ignored(thread, '=', cpus);
    text::lemma_first_of(cpus, '}', '}');
    assert forall|k: int| 0 <= k < line.len() implies #[trigger] line[k] != '}' by {
        if k < thread.len() {
            assert(line[k] == thread[k]);
        } else if k > thread.len() {
            assert(line[k] == cpus[k - thread.len() - 1]);
        }
    }
    text::lemma_first_of_at(line, '}', '}', line.len() as int);
    assert forall|k: int| 0 <= k < thread.len() implies #[trigger] line[k] != '=' by {
        assert(line[k] == thread[k]);
    }
    text::lemma_first_of_at(line, '=', '=', thread.len() as int);
    assert(line.take(thread.len() as int) =~= thread);
    assert(line.skip(thread.len() as int + 1) =~= cpus);
}

/// Outside of blocks, `pkg{` opens the block of the package.
pub proof fn law_open_line(pkg: Seq<char>)
    requires
        is_plain(pkg),
        pkg.len() > 0,
        is_no_comment(pkg),
    ensures
        config::line_effect(Context::Idle, text::spec_trim(pkg.push('{'))) == (LineEffect {
            rule: None,
            faults: 0,
            next: Context::Block(pkg),
        }),
{
    let line = pkg.push('{');
    lemma_plain_tight(pkg);
    assert(line[0] == pkg[0]);
    text::lemma_trim_tight(line);
    assert(line =~= pkg.push('{') + Seq::<char>::empty());
    lemma_not_ignored(pkg, '{', Seq::empty());
    assert forall|k: int| 0 <= k < pkg.len() implies #[trigger] line[k] != '=' && line[k] != '{' by {
        assert(line[k] == pkg[k]);
    }
    text::lemma_first_of_at(line, '=', '{', pkg.len() as int);
    assert(line.take(pkg.len() as int) =~= pkg);
    assert(line.skip(pkg.len() as int + 1) =~= Seq::<char>::empty());
    assert(text::spec_trim(Seq::<char>::empty()) =~= Seq::<char>::empty());
    text::lemma_first_of_at(Seq::empty(), '}', '}', 0);
}

/// In a block, `}` closes it.
pub proof fn law_close_line(pkg: Seq<char>)
    ensures
        config::line_effect(Context::Block(pkg), text::spec_trim(seq!['}'])) == (LineEffect {
            rule: None,
            faults: 0,
            next: Context::Idle,
        }),
{
    let line = seq!['}'];
    text::lemma_trim_tight(line);
    assert(line =~= Seq::<char>::empty().push('}') + Seq::<char>::empty());
    lemma_not_ignored(Seq::empty(), '}', Seq::empty());
    text::lemma_first_of_at(line, '}', '}', 0);
    assert(line.take(0) =~= Seq::<char>::empty());
    assert(text::spec_trim(Seq::<char>::empty()) =~= Seq::<char>::empty());
}

/// `pkg{thread}=cpus` in one line says what the block `pkg{`, `thread=cpus`, `}`
/// says in three.
pub proof fn law_compact_equals_block(
    start: Reading,
    pkg: Seq<char>,
    thread: Seq<char>,
    cpus: Seq<char>,
    topo: CpuTopology,
)
    requires
        start.context is Idle,
        is_plain(pkg),
        pkg.len() > 0,
        is_no_comment(pkg),
        is_plain(thread),
        is_no_comment(thread),
        text::spec_trim(cpus) == cpus,
        text::index_of(cpus, '{') is None,
        text::index_of(cpus, '}') is None,
    ensures
        config::read_lines(
            start,
            seq![pkg.push('{') + thread.push('}').push('=') + cpus],
            topo,
        ) == config::read_lines(
            start,
            seq![pkg.push('{'), thread.push('=') + cpus, seq!['}']],
            topo,
        ),
{
    let compact = pkg.push('{') + thread.push('}').push('=') + cpus;
    let one = seq![compact];
    let three = seq![pkg.push('{'), thread.push('=') + cpus, seq!['}']];
    let two = three.drop_last();
    law_compact_line(pkg, thread, cpus);
    law_open_line(pkg);
    law_block_line(pkg, thread, cpus);
    law_close_line(pkg);
    assert(one.drop_last() =~= Seq::<Seq<char>>::empty());
    assert(config::read_lines(start, one.drop_last(), topo) == start);
    assert(config::read_lines(start, one, topo) == config::read_line(start, compact, topo));
    assert(two =~= seq![pkg.push('{'), thread.push('=') + cpus]);
    assert(two.drop_last() =~= seq![pkg.push('{')]);
    assert(two.drop_last().drop_last() =~= Seq::<Seq<char>>::empty());
    assert(config::read_lines(start, two.drop_last().drop_last(), topo) == start);
    let opened = config::read_line(start, pkg.push('{'), topo);
    assert(config::read_lines(start, two.drop_last(), topo) == opened);
    assert(opened =~= (Reading { context: Context::Block(pkg), ..start }));
    let filled = config::read_line(opened, thread.push('=') + cpus, topo);
    assert(config::read_lines(start, two, topo) == filled);
    let closed = config::read_line(filled, seq!['}'], topo);
    assert(config::read_lines(start, three, topo) == closed);
    assert(closed =~= (Reading { context: Context::Idle, ..filled }));
    assert(config::read_line(start, compact, topo) =~= closed);
}

/// `pkg=cpus {` in one line says what `pkg=cpus` and then `pkg{` say in two.
pub proof fn law_rule_can_open_block(
    start: Reading,
    pkg: Seq<char>,
    cpus: Seq<char>,
    topo: CpuTopology,
)
    requires
        start.context is Idle,
        is_plain(pkg),
        pkg.len() > 0,
        is_no_comment(pkg),
        text::spec_trim(cpus) == cpus,
        cpus.len() > 0,
        text::index_of(cpus, '{') is None,
    ensures
        config::read_lines(start, seq![pkg.push('=') + cpus.push(' ').push('{')], topo)
            == config::read_lines(start, seq![pkg.push('=') + cpus, pkg.push('{')], topo),
{
    let value = cpus.push(' ').push('{');
    let line = pkg.push('=') + value;
    lemma_plain_tight(pkg);
    lemma_plain_tight(cpus);
    assert(line[0] == pkg[0]);
    assert(line.last() == '{');
    text::lemma_trim_tight(line);
    assert(value[0] == cpus[0]);
    text::lemma_trim_tight(value);
    lemma_not_ignored(pkg, '=', value);
    assert forall|k: int| 0 <= k < pkg.len() implies #[trigger] line[k] != '=' && line[k] != '{' by {
        assert(line[k] == pkg[k]);
    }
    text::lemma_first_of_at(line, '=', '{', pkg.len() as int);
    assert(line.take(pkg.len() as int) =~= pkg);
    assert(line.skip(pkg.len() as int + 1) =~= value);
    text::lemma_first_of(cpus, '{', '{');
    assert forall|k: int| 0 <= k < cpus.len() + 1 implies #[trigger] value[k] != '{' by {
        if k < cpus.len() {
            assert(value[k] == cpus[k]);
        }
    }
    text::lemma_first_of_at(value, '{', '{', cpus.len() as int + 1);
    let spaced = cpus.push(' ');
    assert(value.take(cpus.len() as int + 1) =~= spaced);
    assert forall|k: int| cpus.len() <= k < spaced.len() implies text::is_white_space(
        #[trigger] spaced[k],
    ) by {}
    assert(spaced[0] == cpus[0]);
    assert(spaced[cpus.len() - 1] == cpus.last());
    text::lemma_trim_at(spaced, 0, cpus.len() as int);
    assert(spaced.subrange(0, cpus.len() as int) =~= cpus);
    law_package_line(pkg, cpus);
    law_open_line(pkg);
    let one = seq![line];
    let two = seq![pkg.push('=') + cpus, pkg.push('{')];
    assert(one.drop_last() =~= Seq::<Seq<char>>::empty());
    assert(config::read_lines(start, one.drop_last(), topo) == start);
    assert(config::read_lines(start, one, topo) == config::read_line(start, line, topo));
    assert(two.drop_last() =~= seq![pkg.push('=') + cpus]);
    assert(two.drop_last().drop_last() =~= Seq::<Seq<char>>::empty());
    assert(config::read_lines(start, two.drop_last().drop_last(), topo) == start);
    let ruled = config::read_line(start, pkg.push('=') + cpus, topo);
    assert(config::read_lines(start, two.drop_last(), topo) == ruled);
    let opened = config::read_line(ruled, pkg.push('{'), topo);
    assert(config::read_lines(start, two, topo) == opened);
    assert(opened =~= (Reading { context: Context::Block(pkg), ..ruled }));
    assert(config::read_line(start, line, topo) =~= opened);
}

// ---------------------------------------------------------------------------
// What every loaded configuration keeps
// ---------------------------------------------------------------------------
/// Whether a rule is one that a file can give: its names are short enough, it has
/// CPUs, its pattern is its thread name, and only a rule for a whole package wants a
/// directory, which is then that of its CPUs.
pub open spec fn is_sound_rule(rule: RuleView, topo: CpuTopology) -> bool {
    &&& vstd::utf8::encode_utf8(rule.pkg).len() < crate::MAX_PKG_LEN
    &&& vstd::utf8::encode_utf8(rule.thread).len() < crate::MAX_THREAD_LEN
    &&& rule.thread_pattern == rule.thread
    &&& rule.cpus != Set::<int>::empty()
    &&& forall|cpu: int| #[trigger] rule.cpus.contains(cpu) ==> 0 <= cpu < cpuset::CPU_SETSIZE
    &&& rule.cpuset_dir == if rule.thread.len() == 0 && topo.cpuset_enabled {
        cpuset::range_string(rule.cpus)
    } else {
        Seq::empty()
    }
}

proof fn lemma_spec_in_bounds(spec: Seq<char>, topo: CpuTopology)
    ensures
        forall|cpu: int| #[trigger]
            cpuset::spec_parse_cpu_spec(spec, topo).contains(cpu) ==> 0 <= cpu
                < cpuset::CPU_SETSIZE,
{
    assert forall|cpu: int| #[trigger]
        cpuset::spec_parse_cpu_spec(spec, topo).contains(cpu) implies 0 <= cpu
        < cpuset::CPU_SETSIZE by {
        let k = choose|k: int|
            0 <= k < text::spec_split(spec, ',').len() && cpuset::part_cpus(
                text::spec_trim(#[trigger] text::spec_split(spec, ',')[k]),
                topo,
            ).contains(cpu);
    }
}

/// Every rule that is read from lines is sound.
pub proof fn law_rules_are_sound(lines: Seq<Seq<char>>, topo: CpuTopology)
    ensures
        forall|k: int|
            0 <= k < config::read_lines(config::nothing_read(), lines, topo).rules.len()
                ==> is_sound_rule(
                #[trigger] config::read_lines(config::nothing_read(), lines, topo).rules[k],
                topo,
            ),
    decreases lines.len(),
{
    if lines.len() > 0 {
        law_rules_are_sound(lines.drop_last(), topo);
        let r = config::read_lines(config::nothing_read(), lines.drop_last(), topo);
        let effect = config::line_effect(r.context, text::spec_trim(lines.last()));
        if let Some(rule) = effect.rule {
            lemma_spec_in_bounds(rule.cpus, topo);
        }
    }
}

/// The packages of a configuration are those that its rules name, each once.
pub proof fn law_packages_are_those_of_rules(rules: Seq<RuleView>, threads_only: bool)
    ensures
        config::named_packages(rules, threads_only).no_duplicates(),
        forall|pkg: Seq<char>| #[trigger]
            config::named_packages(rules, threads_only).contains(pkg) <==> exists|k: int|
                0 <= k < rules.len() && (#[trigger] rules[k]).pkg == pkg && (threads_only
                    ==> rules[k].thread.len() > 0),
    decreases rules.len(),
{
    let names = config::named_packages(rules, threads_only);
    if rules.len() > 0 {
        let front = rules.drop_last();
        let rest = config::named_packages(front, threads_only);
        let rule = rules.last();
        law_packages_are_those_of_rules(front, threads_only);
        assert forall|pkg: Seq<char>| #[trigger] names.contains(pkg) <==> exists|k: int|
            0 <= k < rules.len() && (#[trigger] rules[k]).pkg == pkg && (threads_only
                ==> rules[k].thread.len() > 0) by {
            if names.contains(pkg) {
                let i = choose|i: int| 0 <= i < names.len() && names[i] == pkg;
                if i < rest.len() {
                    assert(rest[i] == pkg);
                    assert(rest.contains(pkg));
                    let k = choose|k: int|
                        0 <= k < front.len() && (#[trigger] front[k]).pkg == pkg && (threads_only
                            ==> front[k].thread.len() > 0);
                    assert(rules[k] == front[k]);
                } else {
                    assert(rules[rules.len() - 1] == rule);
                }
            }
            if exists|k: int|
                0 <= k < rules.len() && (#[trigger] rules[k]).pkg == pkg && (threads_only
                    ==> rules[k].thread.len() > 0) {
                let k = choose|k: int|
                    0 <= k < rules.len() && (#[trigger] rules[k]).pkg == pkg && (threads_only
                        ==> rules[k].thread.len() > 0);
                if k < front.len() {
                    assert(front[k] == rules[k]);
                    assert(rest.contains(pkg));
                    let i = choose|i: int| 0 <= i < rest.len() && rest[i] == pkg;
                    assert(names[i] == pkg);
                } else if rest.contains(pkg) {
                    let i = choose|i: int| 0 <= i < rest.len() && rest[i] == pkg;
                    assert(names[i] == pkg);
                } else {
                    assert(names[rest.len() as int] == pkg);
                }
            }
        }
    }
}

/// A configuration is what its file holds, once it is loaded and after every time that
/// directories are settled.
pub proof fn law_settling_keeps_what_was_loaded(
    before: AppConfig,
    created: Seq<bool>,
    after: AppConfig,
    file: Seq<char>,
    content: Seq<char>,
    topo: CpuTopology,
)
    ensures
        config::is_config_of(before, file, content, topo) ==> config::is_loaded_from(
            before,
            file,
            content,
            topo,
        ),
        config::is_loaded_from(before, file, content, topo) && config::dirs_settled(
            before,
            created,
            after,
        ) && after.wf() ==> config::is_loaded_from(after, file, content, topo),
{
    let rules = config::file_rules(content, topo);
    if config::is_config_of(before, file, content, topo) {
        assert forall|k: int| 0 <= k < rules.len() implies {
            let dir = before.rules@[k].cpuset_dir@;
            &&& (#[trigger] before.rules@[k])@ == (RuleView { cpuset_dir: dir, ..rules[k] })
            &&& dir == rules[k].cpuset_dir || dir.len() == 0
        } by {
            assert(config::rules_view(before.rules@)[k] == before.rules@[k]@);
        }
    }
    if config::is_loaded_from(before, file, content, topo) && config::dirs_settled(
        before,
        created,
        after,
    ) {
        assert forall|k: int| 0 <= k < rules.len() implies {
            let dir = after.rules@[k].cpuset_dir@;
            &&& (#[trigger] after.rules@[k])@ == (RuleView { cpuset_dir: dir, ..rules[k] })
            &&& dir == rules[k].cpuset_dir || dir.len() == 0
        } by {
            assert(before.rules@[k]@.cpuset_dir == before.rules@[k].cpuset_dir@);
            assert(after.rules@[k]@.cpuset_dir == after.rules@[k].cpuset_dir@);
        }
    }
}

// ---------------------------------------------------------------------------
// Loading again
// ---------------------------------------------------------------------------
/// A file that was read without faults is not read again until it is modified.
pub proof fn law_unchanged_file_is_left_alone(last_mtime: i64, mtime: i64)
    requires
        mtime != config::NEVER_READ,
    ensures
        !config::is_changed(config::counted_mtime(last_mtime, mtime, 0), mtime),
        forall|later: i64|
            later != mtime ==> #[trigger] config::is_changed(
                config::counted_mtime(last_mtime, mtime, 0),
                later,
            ),
{
}

/// A file that was read with faults is read again, modified or not.
pub proof fn law_faulty_file_is_read_again(last_mtime: i64, mtime: i64, faults: nat)
    requires
        faults > 0,
        config::is_changed(last_mtime, mtime),
    ensures
        config::is_changed(config::counted_mtime(last_mtime, mtime, faults), mtime),
{
}

} // verus!
