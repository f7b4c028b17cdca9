//! Affinity rules and the configuration file that holds them.
//!
//! A configuration file is read line by line. `pkg=cpus` is a rule for a package.
//! `pkg {` opens a block whose lines `thread=cpus` are rules for threads of the
//! package, up to a line with `}`. `pkg{thread}=cpus` is a thread rule in one line,
//! and `pkg=cpus {` a rule for the package that opens a block as well. A line `pkg=`
//! waits for a line `{`. Lines that start with `#` or `//` are comments.

use vstd::prelude::*;

use crate::cpuset;
use crate::cpuset::CpuSet;
use crate::cpuset::CpuTopology;
use crate::cpuset::CpusetDir;
use crate::text;
use crate::MAX_PKG_LEN;
use crate::MAX_THREAD_LEN;

verus! {

/// One rule: a package, or those threads of a package that a pattern matches, and
/// the CPUs that they are bound to.
pub struct AffinityRule {
    pub pkg: String,
    /// Empty in a rule for the whole package.
    pub thread: String,
    pub thread_pattern: String,
    /// The CPU set directory of a rule for the whole package; empty if there is none.
    pub cpuset_dir: String,
    pub cpus: CpuSet,
}

/// A rule, for contracts.
#[verifier::ext_equal]
pub struct RuleView {
    pub pkg: Seq<char>,
    pub thread: Seq<char>,
    pub thread_pattern: Seq<char>,
    pub cpuset_dir: Seq<char>,
    pub cpus: Set<int>,
}

impl View for AffinityRule {
    type V = RuleView;

    open spec fn view(&self) -> RuleView {
        RuleView {
            pkg: self.pkg@,
            thread: self.thread@,
            thread_pattern: self.thread_pattern@,
            cpuset_dir: self.cpuset_dir@,
            cpus: self.cpus@,
        }
    }
}

/// Rules, for contracts.
pub open spec fn rules_view(rules: Seq<AffinityRule>) -> Seq<RuleView> {
    rules.map_values(|r: AffinityRule| r@)
}

/// A configuration as it is in effect.
pub struct AppConfig {
    pub rules: Vec<AffinityRule>,
    /// The packages that rules name, each once.
    pub pkgs: Vec<String>,
    /// The packages that thread rules name, each once.
    pub has_thread_rules: Vec<String>,
    pub topo: CpuTopology,
    pub config_file: String,
}

impl AppConfig {
    /// The packages are those that the rules name.
    pub open spec fn wf(self) -> bool {
        &&& text::texts(self.pkgs@) == named_packages(rules_view(self.rules@), false)
        &&& text::texts(self.has_thread_rules@) == named_packages(rules_view(self.rules@), true)
    }
}

// ---------------------------------------------------------------------------
// What one line says
// ---------------------------------------------------------------------------
/// Where in the file a line stands.
#[verifier::ext_equal]
pub enum Context {
    /// Outside of every block.
    Idle,
    /// After a line that named this package and gave it neither CPUs nor a block.
    Pending(Seq<char>),
    /// In the block of this package.
    Block(Seq<char>),
}

/// A rule as the file spells it. `thread` is empty for the whole package.
#[verifier::ext_equal]
pub struct RuleText {
    pub pkg: Seq<char>,
    pub thread: Seq<char>,
    pub cpus: Seq<char>,
}

/// What a line says: a rule perhaps, a number of faults, and where the next line
/// stands.
#[verifier::ext_equal]
pub struct LineEffect {
    pub rule: Option<RuleText>,
    pub faults: nat,
    pub next: Context,
}

/// 1 if a package waits for its block, else 0.
pub open spec fn waiting(ctx: Context) -> nat {
    if ctx is Pending {
        1
    } else {
        0
    }
}

/// Whether a line, without the white space around it, says nothing: it is empty or
/// a comment.
pub open spec fn is_ignored(line: Seq<char>) -> bool {
    line.len() == 0 || line[0] == '#' || "//"@.is_prefix_of(line)
}

/// The part of a line in a block that comes before a closing brace.
pub open spec fn block_body(line: Seq<char>) -> Seq<char> {
    match text::index_of(line, '}') {
        Some(i) => text::spec_trim(line.take(i)),
        None => line,
    }
}

/// What a line in the block of `pkg` says: `thread=cpus`, a closing brace, or both.
pub open spec fn block_line(pkg: Seq<char>, line: Seq<char>) -> LineEffect {
    let body = block_body(line);
    let next = if text::index_of(line, '}') is Some {
        Context::Idle
    } else {
        Context::Block(pkg)
    };
    if body.len() == 0 {
        LineEffect { rule: None, faults: 0, next }
    } else {
        match text::index_of(body, '=') {
            Some(e) => LineEffect {
                rule: Some(
                    RuleText {
                        pkg,
                        thread: text::spec_trim(body.take(e)),
                        cpus: text::spec_trim(body.skip(e + 1)),
                    },
                ),
                faults: 0,
                next,
            },
            None => LineEffect { rule: None, faults: 1, next },
        }
    }
}

/// What `pkg{thread}rest` says, where `rest` is to hold `=cpus`, and may go on to
/// open a block.
pub open spec fn compact_line(
    ctx: Context,
    pkg: Seq<char>,
    thread: Seq<char>,
    rest: Seq<char>,
) -> LineEffect {
    match text::index_of(rest, '=') {
        Some(e) => {
            let cpus = text::spec_trim(rest.skip(e + 1));
            match text::index_of(cpus, '{') {
                Some(b) => {
                    let only = text::spec_trim(cpus.take(b));
                    LineEffect {
                        rule: if only.len() == 0 {
                            None
                        } else {
                            Some(RuleText { pkg, thread, cpus: only })
                        },
                        faults: waiting(ctx),
                        next: Context::Block(pkg),
                    }
                },
                None => LineEffect {
                    rule: Some(RuleText { pkg, thread, cpus }),
                    faults: waiting(ctx),
                    next: Context::Idle,
                },
            }
        },
        None => LineEffect { rule: None, faults: waiting(ctx) + 1, next: Context::Idle },
    }
}

/// What a line says that opens a block for `pkg`, or, if that is empty, for the
/// package that waits.
pub open spec fn open_line(ctx: Context, pkg: Seq<char>) -> LineEffect {
    if pkg.len() > 0 {
        LineEffect { rule: None, faults: waiting(ctx), next: Context::Block(pkg) }
    } else {
        match ctx {
            Context::Pending(name) => LineEffect {
                rule: None,
                faults: 0,
                next: Context::Block(name),
            },
            _ => LineEffect { rule: None, faults: 1, next: Context::Idle },
        }
    }
}

/// What `pkg=value` says, where `value` may go on to open a block.
pub open spec fn package_line(ctx: Context, pkg: Seq<char>, value: Seq<char>) -> LineEffect {
    match text::index_of(value, '{') {
        Some(b) => {
            let cpus = text::spec_trim(value.take(b));
            LineEffect {
                rule: if cpus.len() == 0 {
                    None
                } else {
                    Some(RuleText { pkg, thread: Seq::empty(), cpus })
                },
                faults: waiting(ctx),
                next: Context::Block(pkg),
            }
        },
        None => if value.len() == 0 {
            LineEffect {
                rule: None,
                faults: waiting(ctx),
                next: if pkg.len() == 0 {
                    Context::Idle
                } else {
                    Context::Pending(pkg)
                },
            }
        } else {
            LineEffect {
                rule: Some(RuleText { pkg, thread: Seq::empty(), cpus: value }),
                faults: waiting(ctx),
                next: Context::Idle,
            }
        },
    }
}

/// What a line outside of blocks says.
pub open spec fn outer_line(ctx: Context, line: Seq<char>) -> LineEffect {
    match text::first_of(line, '=', '{') {
        None => LineEffect { rule: None, faults: waiting(ctx), next: Context::Idle },
        Some(i) => {
            let pkg = text::spec_trim(line.take(i));
            let tail = text::spec_trim(line.skip(i + 1));
            if line[i] == '=' {
                package_line(ctx, pkg, tail)
            } else {
                match text::index_of(tail, '}') {
                    Some(e) => compact_line(
                        ctx,
                        pkg,
                        text::spec_trim(tail.take(e)),
                        text::spec_trim(tail.skip(e + 1)),
                    ),
                    None => open_line(ctx, pkg),
                }
            }
        },
    }
}

/// What a line says, white space around it removed.
pub open spec fn line_effect(ctx: Context, line: Seq<char>) -> LineEffect {
    if is_ignored(line) {
        LineEffect { rule: None, faults: 0, next: ctx }
    } else {
        match ctx {
            Context::Block(pkg) => block_line(pkg, line),
            _ => outer_line(ctx, line),
        }
    }
}

// ---------------------------------------------------------------------------
// What a file says
// ---------------------------------------------------------------------------
/// Whether a rule can be used: its names are short enough and its CPU
/// specification stands for at least one CPU.
pub open spec fn is_usable(rule: RuleText, topo: CpuTopology) -> bool {
    &&& vstd::utf8::encode_utf8(rule.pkg).len() < MAX_PKG_LEN
    &&& vstd::utf8::encode_utf8(rule.thread).len() < MAX_THREAD_LEN
    &&& cpuset::spec_parse_cpu_spec(rule.cpus, topo) != Set::<int>::empty()
}

/// A rule that can be used. Its CPU set directory is the one that it wants.
pub open spec fn usable_rule(rule: RuleText, topo: CpuTopology) -> RuleView {
    let cpus = cpuset::spec_parse_cpu_spec(rule.cpus, topo);
    RuleView {
        pkg: rule.pkg,
        thread: rule.thread,
        thread_pattern: rule.thread,
        cpuset_dir: if rule.thread.len() == 0 && topo.cpuset_enabled {
            cpuset::range_string(cpus)
        } else {
            Seq::empty()
        },
        cpus,
    }
}

/// What was read so far.
#[verifier::ext_equal]
pub struct Reading {
    pub rules: Seq<RuleView>,
    pub faults: nat,
    pub context: Context,
}

/// What was read once the effect of one more line is taken in. A rule that cannot
/// be used is a fault.
pub open spec fn take_effect(r: Reading, effect: LineEffect, topo: CpuTopology) -> Reading {
    match effect.rule {
        Some(rule) => if is_usable(rule, topo) {
            Reading {
                rules: r.rules.push(usable_rule(rule, topo)),
                faults: r.faults + effect.faults,
                context: effect.next,
            }
        } else {
            Reading {
                rules: r.rules,
                faults: r.faults + effect.faults + 1,
                context: effect.next,
            }
        },
        None => Reading {
            rules: r.rules,
            faults: r.faults + effect.faults,
            context: effect.next,
        },
    }
}

/// What was read once one more line is read.
pub open spec fn read_line(r: Reading, line: Seq<char>, topo: CpuTopology) -> Reading {
    take_effect(r, line_effect(r.context, text::spec_trim(line)), topo)
}

/// What `lines` say, from `start` on.
pub open spec fn read_lines(start: Reading, lines: Seq<Seq<char>>, topo: CpuTopology) -> Reading
    decreases lines.len(),
{
    if lines.len() == 0 {
        start
    } else {
        read_line(read_lines(start, lines.drop_last(), topo), lines.last(), topo)
    }
}

/// Nothing is read yet.
pub open spec fn nothing_read() -> Reading {
    Reading { rules: Seq::empty(), faults: 0, context: Context::Idle }
}

/// What the lines of a file say.
pub open spec fn read_content(content: Seq<char>, topo: CpuTopology) -> Reading {
    read_lines(nothing_read(), text::spec_split(content, '\n'), topo)
}

/// The rules that a file holds, in the order of the file.
pub open spec fn file_rules(content: Seq<char>, topo: CpuTopology) -> Seq<RuleView> {
    read_content(content, topo).rules
}

/// The number of faults in a file. A block that is not closed and a package that
/// still waits at the end are one.
pub open spec fn file_faults(content: Seq<char>, topo: CpuTopology) -> nat {
    let r = read_content(content, topo);
    if r.context is Idle {
        r.faults
    } else {
        r.faults + 1
    }
}

/// The packages that rules name, each once, in the order of their first rules. If
/// `threads_only`, only thread rules count.
pub open spec fn named_packages(rules: Seq<RuleView>, threads_only: bool) -> Seq<Seq<char>>
    decreases rules.len(),
{
    if rules.len() == 0 {
        Seq::empty()
    } else {
        let rest = named_packages(rules.drop_last(), threads_only);
        let rule = rules.last();
        if (threads_only && rule.thread.len() == 0) || rest.contains(rule.pkg) {
            rest
        } else {
            rest.push(rule.pkg)
        }
    }
}

// ---------------------------------------------------------------------------
// Reading a line
// ---------------------------------------------------------------------------
/// Where in the file a line stands.
enum LineContext {
    Idle,
    Pending(String),
    Block(String),
}

impl LineContext {
    spec fn model(self) -> Context {
        match self {
            LineContext::Idle => Context::Idle,
            LineContext::Pending(s) => Context::Pending(s@),
            LineContext::Block(s) => Context::Block(s@),
        }
    }
}

/// A rule as the file spells it.
struct SpelledRule {
    pkg: String,
    thread: String,
    cpus: String,
}

impl SpelledRule {
    spec fn model(self) -> RuleText {
        RuleText { pkg: self.pkg@, thread: self.thread@, cpus: self.cpus@ }
    }
}

/// What a line says.
struct LineReading {
    rule: Option<SpelledRule>,
    faults: usize,
    next: LineContext,
}

impl LineReading {
    spec fn model(self) -> LineEffect {
        LineEffect {
            rule: match self.rule {
                Some(r) => Some(r.model()),
                None => None,
            },
            faults: self.faults as nat,
            next: self.next.model(),
        }
    }
}

fn spelled(pkg: &str, thread: &str, cpus: &str) -> (r: Option<SpelledRule>)
    ensures
        r matches Some(s) && s.model() == (RuleText { pkg: pkg@, thread: thread@, cpus: cpus@ }),
{
    Some(SpelledRule { pkg: pkg.to_owned(), thread: thread.to_owned(), cpus: cpus.to_owned() })
}

fn count_waiting(ctx: &LineContext) -> (r: usize)
    ensures
        r == waiting(ctx.model()),
{
    match ctx {
        LineContext::Pending(_) => 1,
        _ => 0,
    }
}

fn ignored(line: &str) -> (r: bool)
    ensures
        r == is_ignored(line@),
{
    line.is_empty() || line.get_char(0) == '#' || text::starts_with(line, "//")
}

fn read_block_line(pkg: &str, line: &str) -> (r: LineReading)
    ensures
        r.model() == block_line(pkg@, line@),
{
    let close = text::find(line, '}');
    let body = match close {
        Some(i) => text::trim(text::before(line, i)),
        None => line,
    };
    let next = match close {
        Some(_) => LineContext::Idle,
        None => LineContext::Block(pkg.to_owned()),
    };
    if body.is_empty() {
        return LineReading { rule: None, faults: 0, next };
    }
    match text::find(body, '=') {
        Some(e) => {
            let thread = text::trim(text::before(body, e));
            let cpus = text::trim(text::after(body, e + 1));
            LineReading { rule: spelled(pkg, thread, cpus), faults: 0, next }
        },
        None => LineReading { rule: None, faults: 1, next },
    }
}

fn read_compact_line(ctx: &LineContext, pkg: &str, thread: &str, rest: &str) -> (r: LineReading)
    ensures
        r.model() == compact_line(ctx.model(), pkg@, thread@, rest@),
{
    let faults: usize = count_waiting(ctx);
    match text::find(rest, '=') {
        Some(e) => {
            let cpus = text::trim(text::after(rest, e + 1));
            match text::find(cpus, '{') {
                Some(b) => {
                    let only = text::trim(text::before(cpus, b));
                    let rule = if only.is_empty() {
                        None
                    } else {
                        spelled(pkg, thread, only)
                    };
                    LineReading { rule, faults, next: LineContext::Block(pkg.to_owned()) }
                },
                None => LineReading {
                    rule: spelled(pkg, thread, cpus),
                    faults,
                    next: LineContext::Idle,
                },
            }
        },
        None => LineReading { rule: None, faults: faults + 1, next: LineContext::Idle },
    }
}

fn read_open_line(ctx: &LineContext, pkg: &str) -> (r: LineReading)
    ensures
        r.model() == open_line(ctx.model(), pkg@),
{
    if !pkg.is_empty() {
        let faults: usize = count_waiting(ctx);
        LineReading { rule: None, faults, next: LineContext::Block(pkg.to_owned()) }
    } else {
        match ctx {
            LineContext::Pending(name) => LineReading {
                rule: None,
                faults: 0,
                next: LineContext::Block(name.clone()),
            },
            _ => LineReading { rule: None, faults: 1, next: LineContext::Idle },
        }
    }
}

fn read_package_line(ctx: &LineContext, pkg: &str, value: &str) -> (r: LineReading)
    ensures
        r.model() == package_line(ctx.model(), pkg@, value@),
{
    let faults: usize = count_waiting(ctx);
    let whole = String::new();
    match text::find(value, '{') {
        Some(b) => {
            let cpus = text::trim(text::before(value, b));
            let rule = if cpus.is_empty() {
                None
            } else {
                spelled(pkg, whole.as_str(), cpus)
            };
            LineReading { rule, faults, next: LineContext::Block(pkg.to_owned()) }
        },
        None => if value.is_empty() {
            let next = if pkg.is_empty() {
                LineContext::Idle
            } else {
                LineContext::Pending(pkg.to_owned())
            };
            LineReading { rule: None, faults, next }
        } else {
            LineReading {
                rule: spelled(pkg, whole.as_str(), value),
                faults,
                next: LineContext::Idle,
            }
        },
    }
}

fn read_outer_line(ctx: &LineContext, line: &str) -> (r: LineReading)
    ensures
        r.model() == outer_line(ctx.model(), line@),
{
    match text::find_either(line, '=', '{') {
        None => {
            let faults: usize = count_waiting(ctx);
            LineReading { rule: None, faults, next: LineContext::Idle }
        },
        Some(i) => {
            let pkg = text::trim(text::before(line, i));
            let tail = text::trim(text::after(line, i + 1));
            if line.get_char(i) == '=' {
                read_package_line(ctx, pkg, tail)
            } else {
                match text::find(tail, '}') {
                    Some(e) => {
                        let thread = text::trim(text::before(tail, e));
                        let rest = text::trim(text::after(tail, e + 1));
                        read_compact_line(ctx, pkg, thread, rest)
                    },
                    None => read_open_line(ctx, pkg),
                }
            }
        },
    }
}

// ---------------------------------------------------------------------------
// Reading a file
// ---------------------------------------------------------------------------
/// 1 if something is left open, else 0.
spec fn left_open(ctx: Context) -> nat {
    if ctx is Idle {
        0
    } else {
        1
    }
}

/// A line has at least as many characters as it can add faults.
proof fn lemma_effect_bound(ctx: Context, line: Seq<char>)
    ensures
        ({
            let e = line_effect(ctx, line);
            let refused: nat = if e.rule is Some {
                1
            } else {
                0
            };
            e.faults + refused + left_open(e.next) <= line.len() + left_open(ctx)
        }),
{
    if !is_ignored(line) {
        match ctx {
            Context::Block(pkg) => {},
            _ => {
                text::lemma_first_of(line, '=', '{');
                match text::first_of(line, '=', '{') {
                    None => {},
                    Some(i) => {
                        let tail = text::spec_trim(line.skip(i + 1));
                        text::lemma_trim_edges(line.take(i));
                        text::lemma_trim_edges(line.skip(i + 1));
                        text::lemma_first_of(tail, '}', '}');
                        text::lemma_first_of(tail, '{', '{');
                        match text::index_of(tail, '}') {
                            Some(e) => {
                                let rest = text::spec_trim(tail.skip(e + 1));
                                text::lemma_trim_edges(tail.skip(e + 1));
                                text::lemma_first_of(rest, '=', '=');
                            },
                            None => {},
                        }
                    },
                }
            },
        }
    }
}

/// The number of characters in all lines.
spec fn total_len(lines: Seq<Seq<char>>) -> nat
    decreases lines.len(),
{
    if lines.len() == 0 {
        0
    } else {
        total_len(lines.drop_last()) + lines.last().len()
    }
}

proof fn lemma_split_total(s: Seq<char>, sep: char)
    ensures
        text::spec_split(s, sep).len() > 0,
        total_len(text::spec_split(s, sep)) + text::spec_split(s, sep).len() == s.len() + 1,
    decreases s.len(),
{
    let pieces = text::spec_split(s, sep);
    if s.len() == 0 {
        assert(pieces.drop_last() =~= Seq::<Seq<char>>::empty());
        assert(total_len(pieces.drop_last()) == 0);
    } else {
        lemma_split_total(s.drop_last(), sep);
        let rest = text::spec_split(s.drop_last(), sep);
        if s.last() == sep {
            assert(pieces.drop_last() =~= rest);
            assert(pieces.last().len() == 0);
        } else {
            assert(pieces.drop_last() =~= rest.drop_last());
            assert(pieces.last().len() == rest.last().len() + 1);
        }
    }
}

proof fn lemma_total_take(lines: Seq<Seq<char>>, i: int)
    requires
        0 <= i <= lines.len(),
    ensures
        total_len(lines.take(i)) <= total_len(lines),
    decreases lines.len(),
{
    if i == lines.len() {
        assert(lines.take(i) =~= lines);
    } else {
        lemma_total_take(lines.drop_last(), i);
        assert(lines.drop_last().take(i) =~= lines.take(i));
    }
}

proof fn lemma_reading_bound(lines: Seq<Seq<char>>, topo: CpuTopology)
    ensures
        ({
            let r = read_lines(nothing_read(), lines, topo);
            r.faults + left_open(r.context) <= total_len(lines)
        }),
    decreases lines.len(),
{
    if lines.len() > 0 {
        lemma_reading_bound(lines.drop_last(), topo);
        let r = read_lines(nothing_read(), lines.drop_last(), topo);
        let line = text::spec_trim(lines.last());
        text::lemma_trim_edges(lines.last());
        lemma_effect_bound(r.context, line);
    }
}

/// Adds a rule unless it cannot be used, and tells whether it was added.
fn add_rule(rules: &mut Vec<AffinityRule>, topo: &CpuTopology, rule: SpelledRule) -> (r: bool)
    ensures
        r == is_usable(rule.model(), *topo),
        rules_view(final(rules)@) == if r {
            rules_view(old(rules)@).push(usable_rule(rule.model(), *topo))
        } else {
            rules_view(old(rules)@)
        },
{
    if rule.pkg.as_str().as_bytes().len() >= MAX_PKG_LEN || rule.thread.as_str().as_bytes().len()
        >= MAX_THREAD_LEN {
        return false;
    }
    let cpus = cpuset::parse_cpu_spec(rule.cpus.as_str(), topo);
    let n: usize = cpus.count();
    assert(n == 0 <==> cpus@ =~= Set::<int>::empty());
    if n == 0 {
        return false;
    }
    let cpuset_dir = if rule.thread.as_str().is_empty() && topo.cpuset_enabled {
        cpus.to_range_string()
    } else {
        String::new()
    };
    let thread_pattern = rule.thread.clone();
    let ghost model = rule.model();
    let added = AffinityRule {
        pkg: rule.pkg,
        thread: rule.thread,
        thread_pattern,
        cpuset_dir,
        cpus,
    };
    assert(added@ =~= usable_rule(model, *topo));
    rules.push(added);
    assert(rules_view(rules@) =~= rules_view(old(rules)@).push(added@));
    true
}

/// The rules of a file and the number of its faults.
pub struct ParsedRules {
    pub rules: Vec<AffinityRule>,
    pub faults: usize,
}

/// Reads the rules of a file. What is faulty is skipped and counted.
pub fn parse_rules(content: &str, topo: &CpuTopology) -> (r: ParsedRules)
    ensures
        rules_view(r.rules@) == file_rules(content@, *topo),
        r.faults == file_faults(content@, *topo),
{
    let mut rules: Vec<AffinityRule> = Vec::new();
    let mut faults: usize = 0;
    let mut ctx = LineContext::Idle;
    let limit: usize = content.unicode_len();
    let lines = text::split(content, '\n');
    let ghost all = text::spec_split(content@, '\n');
    let mut i: usize = 0;
    proof {
        lemma_split_total(content@, '\n');
        assert(all.take(0) =~= Seq::<Seq<char>>::empty());
        assert(rules_view(rules@) =~= Seq::<RuleView>::empty());
    }
    while i < lines.len()
        invariant
            i <= lines@.len(),
            text::slices(lines@) == all,
            limit == content@.len(),
            total_len(all) <= limit,
            ({
                let r = read_lines(nothing_read(), all.take(i as int), *topo);
                &&& rules_view(rules@) == r.rules
                &&& faults == r.faults
                &&& ctx.model() == r.context
            }),
        decreases lines.len() - i,
    {
        let line = text::trim(lines[i]);
        proof {
            assert(all[i as int] == lines@[i as int]@);
            assert(all.take(i + 1).drop_last() =~= all.take(i as int));
            assert(all.take(i + 1).last() == all[i as int]);
            lemma_reading_bound(all.take(i + 1), *topo);
            lemma_total_take(all, i + 1);
        }
        if !ignored(line) {
            let reading = match &ctx {
                LineContext::Block(pkg) => read_block_line(pkg.as_str(), line),
                _ => read_outer_line(&ctx, line),
            };
            let ghost effect = reading.model();
            assert(effect == line_effect(ctx.model(), line@));
            let found: usize = reading.faults;
            faults = faults + found;
            if let Some(rule) = reading.rule {
                if !add_rule(&mut rules, topo, rule) {
                    faults = faults + 1;
                }
            }
            ctx = reading.next;
        }
        i = i + 1;
    }
    proof {
        assert(all.take(all.len() as int) =~= all);
        lemma_reading_bound(all, *topo);
    }
    match ctx {
        LineContext::Idle => {},
        _ => {
            faults = faults + 1;
        },
    }
    ParsedRules { rules, faults }
}

/// Lists the packages that rules name.
fn list_packages(rules: &Vec<AffinityRule>, threads_only: bool) -> (r: Vec<String>)
    ensures
        text::texts(r@) == named_packages(rules_view(rules@), threads_only),
{
    let mut found: Vec<String> = Vec::new();
    let ghost all = rules_view(rules@);
    let mut i: usize = 0;
    proof {
        assert(all.take(0) =~= Seq::<RuleView>::empty());
        assert(text::texts(found@) =~= Seq::<Seq<char>>::empty());
    }
    while i < rules.len()
        invariant
            i <= rules@.len(),
            all == rules_view(rules@),
            text::texts(found@) == named_packages(all.take(i as int), threads_only),
        decreases rules.len() - i,
    {
        let rule = &rules[i];
        proof {
            assert(all[i as int] == rules@[i as int]@);
            assert(all.take(i + 1).drop_last() =~= all.take(i as int));
            assert(all.take(i + 1).last() == all[i as int]);
        }
        let skipped: bool = threads_only && rule.thread.as_str().is_empty();
        if !skipped && !text::list_contains(&found, rule.pkg.as_str()) {
            let ghost before_found = found@;
            found.push(rule.pkg.clone());
            assert(text::texts(found@) =~= text::texts(before_found).push(rule.pkg@));
        }
        i = i + 1;
    }
    assert(all.take(all.len() as int) =~= all);
    found
}

// ---------------------------------------------------------------------------
// Loading
// ---------------------------------------------------------------------------
/// The time that stands for no earlier reading.
pub const NEVER_READ: i64 = -1;

/// Whether a file that was last modified at `mtime` is to be read again, if the
/// reading that counts was of a file last modified at `last_mtime`.
pub open spec fn is_changed(last_mtime: i64, mtime: i64) -> bool {
    last_mtime != mtime || last_mtime == NEVER_READ
}

/// The time of the reading that counts, once a file that was last modified at
/// `mtime` was read with so many faults: a faulty reading does not count.
pub open spec fn counted_mtime(last_mtime: i64, mtime: i64, faults: nat) -> i64 {
    if faults == 0 {
        mtime
    } else {
        last_mtime
    }
}

/// Tests whether a file is to be read again.
pub fn config_changed(last_mtime: i64, mtime: i64) -> (r: bool)
    ensures
        r == is_changed(last_mtime, mtime),
{
    last_mtime != mtime || last_mtime == NEVER_READ
}

/// A configuration that was loaded, and the number of faults that were skipped.
pub struct LoadedConfig {
    pub config: AppConfig,
    pub faults: usize,
}

/// Whether a configuration is what a file holds, before CPU set directories are
/// made.
pub open spec fn is_config_of(
    cfg: AppConfig,
    config_file: Seq<char>,
    content: Seq<char>,
    topo: CpuTopology,
) -> bool {
    &&& rules_view(cfg.rules@) == file_rules(content, topo)
    &&& text::texts(cfg.pkgs@) == named_packages(file_rules(content, topo), false)
    &&& text::texts(cfg.has_thread_rules@) == named_packages(file_rules(content, topo), true)
    &&& cfg.topo == topo
    &&& cfg.config_file@ == config_file
}

/// Whether a configuration is what a file holds, except that rules may have lost
/// directories that could not be made.
pub open spec fn is_loaded_from(
    cfg: AppConfig,
    config_file: Seq<char>,
    content: Seq<char>,
    topo: CpuTopology,
) -> bool {
    let rules = file_rules(content, topo);
    &&& cfg.rules@.len() == rules.len()
    &&& forall|k: int|
        0 <= k < rules.len() ==> {
            let dir = cfg.rules@[k].cpuset_dir@;
            &&& (#[trigger] cfg.rules@[k])@ == (RuleView { cpuset_dir: dir, ..rules[k] })
            &&& dir == rules[k].cpuset_dir || dir.len() == 0
        }
    &&& cfg.wf()
    &&& cfg.topo == topo
    &&& cfg.config_file@ == config_file
}

/// Loads a configuration file from what is known of the file: when it was last
/// modified, and what it holds, each if it could be found out. A file that is not
/// changed is not loaded, whatever it holds. Only a reading without faults counts
/// for `last_mtime`, so that a faulty file is read again.
pub fn load_config(
    config_file: &str,
    topo: &CpuTopology,
    last_mtime: &mut i64,
    mtime: Option<i64>,
    content: Option<&str>,
) -> (r: Option<LoadedConfig>)
    ensures
        r is Some == (mtime is Some && is_changed(*old(last_mtime), mtime->0) && content is Some),
        r matches Some(loaded) ==> {
            &&& is_config_of(loaded.config, config_file@, content->0@, *topo)
            &&& loaded.config.wf()
            &&& loaded.faults == file_faults(content->0@, *topo)
        },
        *final(last_mtime) == if r is Some {
            counted_mtime(*old(last_mtime), mtime->0, file_faults(content->0@, *topo))
        } else {
            *old(last_mtime)
        },
{
    let modified: i64 = match mtime {
        Some(m) => m,
        None => {
            return None;
        },
    };
    if !config_changed(*last_mtime, modified) {
        return None;
    }
    let held = match content {
        Some(c) => c,
        None => {
            return None;
        },
    };
    let parsed = parse_rules(held, topo);
    if parsed.faults == 0 {
        *last_mtime = modified;
    }
    let pkgs = list_packages(&parsed.rules, false);
    let has_thread_rules = list_packages(&parsed.rules, true);
    let config = AppConfig {
        rules: parsed.rules,
        pkgs,
        has_thread_rules,
        topo: topo.clone(),
        config_file: config_file.to_owned(),
    };
    Some(LoadedConfig { config, faults: parsed.faults })
}

/// Loads the file of the configuration in effect again, for the same topology, from
/// what is known of the file. Without a configuration in effect, nothing is loaded.
pub fn config_reload(
    current: Option<&AppConfig>,
    last_mtime: &mut i64,
    mtime: Option<i64>,
    content: Option<&str>,
) -> (r: Option<LoadedConfig>)
    ensures
        r is Some == (current is Some && mtime is Some && is_changed(*old(last_mtime), mtime->0)
            && content is Some),
        r matches Some(loaded) ==> {
            &&& is_config_of(
                loaded.config,
                current->0.config_file@,
                content->0@,
                current->0.topo,
            )
            &&& loaded.config.wf()
            &&& loaded.faults == file_faults(content->0@, current->0.topo)
        },
        *final(last_mtime) == if r is Some {
            counted_mtime(
                *old(last_mtime),
                mtime->0,
                file_faults(content->0@, current->0.topo),
            )
        } else {
            *old(last_mtime)
        },
{
    match current {
        Some(cfg) => load_config(cfg.config_file.as_str(), &cfg.topo, last_mtime, mtime, content),
        None => None,
    }
}

/// Lists the CPU set directories that the rules want, one entry for each rule.
pub fn wanted_dirs(cfg: &AppConfig, base: &str) -> (r: Vec<Option<CpusetDir>>)
    ensures
        r@.len() == cfg.rules@.len(),
        forall|k: int|
            0 <= k < r@.len() ==> {
                let name = cfg.rules@[k].cpuset_dir@;
                &&& (#[trigger] r@[k]) is Some == (name.len() > 0)
                &&& r@[k] matches Some(d) ==> {
                    &&& d.path@ == base@ + "/"@ + name
                    &&& d.cpus@ == name
                    &&& d.mems@ == cfg.topo.mems_str@
                }
            },
{
    let mut dirs: Vec<Option<CpusetDir>> = Vec::new();
    let mut i: usize = 0;
    while i < cfg.rules.len()
        invariant
            i <= cfg.rules@.len(),
            dirs@.len() == i,
            forall|k: int|
                0 <= k < i ==> {
                    let name = cfg.rules@[k].cpuset_dir@;
                    &&& (#[trigger] dirs@[k]) is Some == (name.len() > 0)
                    &&& dirs@[k] matches Some(d) ==> {
                        &&& d.path@ == base@ + "/"@ + name
                        &&& d.cpus@ == name
                        &&& d.mems@ == cfg.topo.mems_str@
                    }
                },
        decreases cfg.rules.len() - i,
    {
        let name = &cfg.rules[i].cpuset_dir;
        if name.as_str().is_empty() {
            dirs.push(None);
        } else {
            let mut path = String::new();
            path.append(base);
            path.append("/");
            path.append(name.as_str());
            assert(path@ =~= base@ + "/"@ + name@);
            dirs.push(
                Some(CpusetDir { path, cpus: name.clone(), mems: cfg.topo.mems_str.clone() }),
            );
        }
        i = i + 1;
    }
    dirs
}

/// Whether `after` is `before` without the directories of those rules for which
/// `created` tells that they could not be made. A rule beyond the end of `created`
/// counts as such.
pub open spec fn dirs_settled(before: AppConfig, created: Seq<bool>, after: AppConfig) -> bool {
    &&& after.rules@.len() == before.rules@.len()
    &&& forall|k: int|
        0 <= k < before.rules@.len() ==> (#[trigger] after.rules@[k])@ == (RuleView {
            cpuset_dir: if k < created.len() && created[k] {
                before.rules@[k].cpuset_dir@
            } else {
                Seq::empty()
            },
            ..before.rules@[k]@
        })
    &&& after.pkgs == before.pkgs
    &&& after.has_thread_rules == before.has_thread_rules
    &&& after.topo == before.topo
    &&& after.config_file == before.config_file
}

proof fn lemma_same_packages(a: Seq<RuleView>, b: Seq<RuleView>, threads_only: bool)
    requires
        a.len() == b.len(),
        forall|k: int|
            0 <= k < a.len() ==> (#[trigger] a[k]).pkg == b[k].pkg && a[k].thread == b[k].thread,
    ensures
        named_packages(a, threads_only) == named_packages(b, threads_only),
    decreases a.len(),
{
    if a.len() > 0 {
        assert forall|k: int| 0 <= k < a.drop_last().len() implies (#[trigger] a.drop_last()[k]).pkg
            == b.drop_last()[k].pkg && a.drop_last()[k].thread == b.drop_last()[k].thread by {
            assert(a.drop_last()[k] == a[k]);
        }
        lemma_same_packages(a.drop_last(), b.drop_last(), threads_only);
        assert(a.last() == a[a.len() - 1]);
    }
}

/// Takes the directory from every rule whose directory could not be made.
pub fn settle_dirs(cfg: &mut AppConfig, created: &Vec<bool>)
    ensures
        dirs_settled(*old(cfg), created@, *final(cfg)),
        old(cfg).wf() ==> final(cfg).wf(),
{
    let n: usize = cfg.rules.len();
    let mut i: usize = 0;
    while i < n
        invariant
            i <= n,
            n == cfg.rules@.len(),
            cfg.rules@.len() == old(cfg).rules@.len(),
            forall|k: int|
                0 <= k < i ==> (#[trigger] cfg.rules@[k])@ == (RuleView {
                    cpuset_dir: if k < created@.len() && created@[k] {
                        old(cfg).rules@[k].cpuset_dir@
                    } else {
                        Seq::empty()
                    },
                    ..old(cfg).rules@[k]@
                }),
            forall|k: int| i <= k < n ==> #[trigger] cfg.rules@[k] == old(cfg).rules@[k],
            cfg.pkgs == old(cfg).pkgs,
            cfg.has_thread_rules == old(cfg).has_thread_rules,
            cfg.topo == old(cfg).topo,
            cfg.config_file == old(cfg).config_file,
        decreases n - i,
    {
        if !(i < created.len() && created[i]) {
            cfg.rules[i].cpuset_dir = String::new();
        }
        i = i + 1;
    }
    proof {
        let after = rules_view(cfg.rules@);
        let before = rules_view(old(cfg).rules@);
        assert forall|k: int| 0 <= k < after.len() implies (#[trigger] after[k]).pkg
            == before[k].pkg && after[k].thread == before[k].thread by {
            assert(after[k] == cfg.rules@[k]@);
            assert(before[k] == old(cfg).rules@[k]@);
        }
        lemma_same_packages(after, before, false);
        lemma_same_packages(after, before, true);
    }
}

} // verus!
