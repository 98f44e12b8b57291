//! Whether a package fits the machine that it is installed on.
use crate::lockfile::PackageSnapshot;
use crate::registry;
use crate::registry::PackageVersion;
use crate::semver;
use crate::semver::{Version, VersionModel};
use crate::table::TextMap;
use crate::text;
use vstd::prelude::*;
use vstd::string::*;

verus! {

/// What becomes of a package.
#[derive(Debug, Clone, Copy, PartialEq, Eq, Structural)]
pub enum Installability {
    Install,
    SkipOptional,
}

/// The machine: its system, its processor and its C library, as packages call
/// them, and the version of Node.js that is there.
#[derive(Debug)]
pub struct Machine {
    pub os: String,
    pub cpu: String,
    pub libc: String,
    pub node: Option<Version>,
}

/// The mathematical value of a [`Machine`].
pub struct MachineModel {
    pub os: Seq<char>,
    pub cpu: Seq<char>,
    pub libc: Seq<char>,
    pub node: Option<VersionModel>,
}

impl DeepView for Machine {
    type V = MachineModel;

    open spec fn deep_view(&self) -> MachineModel {
        MachineModel {
            os: self.os@,
            cpu: self.cpu@,
            libc: self.libc@,
            node: self.node.deep_view(),
        }
    }
}

/// How packages call a system.
pub open spec fn os_name(os: Seq<char>) -> Seq<char> {
    if os == "macos"@ {
        "darwin"@
    } else if os == "windows"@ {
        "win32"@
    } else {
        os
    }
}

/// How packages call the system that goes by `os`.
pub fn current_os<'a>(os: &'a str) -> (name: &'a str)
    ensures
        name@ == os_name(os@),
{
    if text::same_text(os, "macos") {
        "darwin"
    } else if text::same_text(os, "windows") {
        "win32"
    } else {
        os
    }
}

/// How packages call a processor.
pub open spec fn cpu_name(arch: Seq<char>) -> Seq<char> {
    if arch == "x86_64"@ {
        "x64"@
    } else if arch == "x86"@ {
        "ia32"@
    } else if arch == "aarch64"@ {
        "arm64"@
    } else {
        arch
    }
}

/// How packages call the processor that goes by `arch`.
pub fn current_cpu<'a>(arch: &'a str) -> (name: &'a str)
    ensures
        name@ == cpu_name(arch@),
{
    if text::same_text(arch, "x86_64") {
        "x64"
    } else if text::same_text(arch, "x86") {
        "ia32"
    } else if text::same_text(arch, "aarch64") {
        "arm64"
    } else {
        arch
    }
}

/// The version that Node.js gives of itself.
pub fn node_version(output: &str) -> (version: Option<Version>)
    ensures
        version.deep_view() == semver::parsed_version(
            text::trim_start_char(text::trimmed(output@), 'v'),
        ),
{
    Version::parse(text::trim_start(text::trim_blanks(output), 'v'))
}

/// An item of a list rules a value out.
pub open spec fn rules_out(item: Seq<char>, value: Seq<char>) -> bool {
    text::stripped_prefix(item, "!"@) == Some(value)
}

/// Some item of a list rules some value out.
pub open spec fn some_ruled_out(values: Seq<Seq<char>>, wanted: Seq<Seq<char>>) -> bool {
    exists|v: int, w: int|
        0 <= v < values.len() && 0 <= w < wanted.len() && rules_out(
            #[trigger] wanted[w],
            #[trigger] values[v],
        )
}

/// Some item of a list names some value.
pub open spec fn some_named(values: Seq<Seq<char>>, wanted: Seq<Seq<char>>) -> bool {
    exists|v: int, w: int|
        0 <= v < values.len() && 0 <= w < wanted.len() && #[trigger] wanted[w]
            == #[trigger] values[v] && wanted[w].len() > 0 && !text::starts_with(wanted[w], "!"@)
}

/// How many items of a list are not empty.
pub open spec fn item_count(wanted: Seq<Seq<char>>) -> int
    decreases wanted.len(),
{
    if wanted.len() == 0 {
        0
    } else {
        item_count(wanted.drop_last()) + (if wanted.last().len() > 0 {
            1int
        } else {
            0
        })
    }
}

/// How many items of a list rule something out.
pub open spec fn barrier_count(wanted: Seq<Seq<char>>) -> int
    decreases wanted.len(),
{
    if wanted.len() == 0 {
        0
    } else {
        barrier_count(wanted.drop_last()) + (if text::starts_with(wanted.last(), "!"@) {
            1int
        } else {
            0
        })
    }
}

/// A list admits some values: nothing rules one out, and either one is named or
/// the list only rules out.
pub open spec fn admits(values: Seq<Seq<char>>, wanted: Seq<Seq<char>>) -> bool {
    wanted == seq!["any"@] || (!some_ruled_out(values, wanted) && (some_named(values, wanted)
        || values.len() * barrier_count(wanted) == item_count(wanted)))
}

proof fn lemma_counts(wanted: Seq<Seq<char>>, n: int)
    requires
        0 <= n <= wanted.len(),
    ensures
        0 <= barrier_count(wanted.take(n)) <= n,
        0 <= item_count(wanted.take(n)) <= n,
    decreases n,
{
    if n > 0 {
        lemma_counts(wanted, n - 1);
        assert(wanted.take(n).drop_last() =~= wanted.take(n - 1));
    }
}

/// Whether a list admits some values.
pub fn check_list(current_values: &Vec<String>, wanted: &Vec<String>) -> (ok: bool)
    ensures
        ok == admits(current_values.deep_view(), wanted.deep_view()),
{
    let ghost values = current_values.deep_view();
    let ghost items = wanted.deep_view();
    if wanted.len() == 1 && text::same_text(wanted[0].as_str(), "any") {
        proof {
            assert(items[0] == wanted@[0]@);
            assert(items =~= seq!["any"@]);
        }
        return true;
    }
    proof {
        if items == seq!["any"@] {
            assert(items.len() == 1 && items[0] == "any"@);
            assert(items[0] == wanted@[0]@);
        }
        reveal_strlit("!");
    }
    let mut named = false;
    let mut ruled_out = false;
    let mut barriers: usize = 0;
    let mut count: usize = 0;
    let mut w: usize = 0;
    assert(items.take(0) =~= Seq::empty());
    while w < wanted.len()
        invariant
            w <= wanted@.len(),
            values == current_values.deep_view(),
            items == wanted.deep_view(),
            "!"@.len() == 1,
            named == some_named(values, items.take(w as int)),
            ruled_out == some_ruled_out(values, items.take(w as int)),
            barriers == barrier_count(items.take(w as int)),
            count == item_count(items.take(w as int)),
            barriers <= w,
            count <= w,
        decreases wanted@.len() - w,
    {
        let item = wanted[w].as_str();
        let ghost before = items.take(w as int);
        let ghost after = items.take(w + 1);
        proof {
            assert(items[w as int] == item@);
            assert(after.drop_last() =~= before);
            assert(after.last() == item@);
        }
        let negated = text::strip_prefix(item, "!");
        let mut v: usize = 0;
        while v < current_values.len()
            invariant
                v <= current_values@.len(),
                w < wanted@.len(),
                values == current_values.deep_view(),
                items == wanted.deep_view(),
                item@ == items[w as int],
                before == items.take(w as int),
                after == items.take(w + 1),
                "!"@.len() == 1,
                negated.deep_view() == text::stripped_prefix(item@, "!"@),
                named == (some_named(values, before) || some_named(
                    values.take(v as int),
                    seq![item@],
                )),
                ruled_out == (some_ruled_out(values, before) || some_ruled_out(
                    values.take(v as int),
                    seq![item@],
                )),
            decreases current_values@.len() - v,
        {
            let value = current_values[v].as_str();
            assert(values[v as int] == value@);
            match negated {
                Some(rest) => {
                    if text::same_text(rest, value) {
                        ruled_out = true;
                    }
                },
                None => {
                    if text::same_text(item, value) && item.unicode_len() > 0 {
                        named = true;
                    }
                },
            }
            proof {
                lemma_next_value(values, seq![item@], v as int);
            }
            v = v + 1;
        }
        proof {
            assert(values.take(v as int) =~= values);
            lemma_next_item(values, items, w as int);
        }
        if item.unicode_len() > 0 {
            count = count + 1;
        }
        if negated.is_some() {
            barriers = barriers + 1;
        }
        w = w + 1;
    }
    let many: usize = current_values.len();
    proof {
        assert(items.take(w as int) =~= items);
        let a = many as int;
        let b = barriers as int;
        assert(a * b <= 0xffff_ffff_ffff_ffff_ffff_ffff_ffff_ffff) by (nonlinear_arith)
            requires
                0 <= a <= 0xffff_ffff_ffff_ffff,
                0 <= b <= 0xffff_ffff_ffff_ffff,
        ;
        assert(0 <= a * b) by (nonlinear_arith)
            requires
                0 <= a,
                0 <= b,
        ;
    }
    !ruled_out && (named || (many as u128) * (barriers as u128) == count as u128)
}

proof fn lemma_next_value(values: Seq<Seq<char>>, one: Seq<Seq<char>>, v: int)
    requires
        0 <= v < values.len(),
        one.len() == 1,
    ensures
        some_named(values.take(v + 1), one) == (some_named(values.take(v), one) || (one[0]
            == values[v] && one[0].len() > 0 && !text::starts_with(one[0], "!"@))),
        some_ruled_out(values.take(v + 1), one) == (some_ruled_out(values.take(v), one)
            || rules_out(one[0], values[v])),
{
    let after = values.take(v + 1);
    let before = values.take(v);
    assert(after[v] == values[v]);
    if some_named(before, one) {
        let (i, w) = choose|i: int, w: int|
            0 <= i < before.len() && 0 <= w < one.len() && #[trigger] one[w] == #[trigger] before[i]
                && one[w].len() > 0 && !text::starts_with(one[w], "!"@);
        assert(after[i] == before[i]);
        assert(one[w] == after[i]);
    }
    if some_named(after, one) {
        let (i, w) = choose|i: int, w: int|
            0 <= i < after.len() && 0 <= w < one.len() && #[trigger] one[w] == #[trigger] after[i]
                && one[w].len() > 0 && !text::starts_with(one[w], "!"@);
        if i < v {
            assert(before[i] == after[i]);
            assert(one[w] == before[i]);
        }
    }
    if some_ruled_out(before, one) {
        let (i, w) = choose|i: int, w: int|
            0 <= i < before.len() && 0 <= w < one.len() && rules_out(
                #[trigger] one[w],
                #[trigger] before[i],
            );
        assert(after[i] == before[i]);
        assert(rules_out(one[w], after[i]));
    }
    if some_ruled_out(after, one) {
        let (i, w) = choose|i: int, w: int|
            0 <= i < after.len() && 0 <= w < one.len() && rules_out(
                #[trigger] one[w],
                #[trigger] after[i],
            );
        if i < v {
            assert(before[i] == after[i]);
            assert(rules_out(one[w], before[i]));
        }
    }
    if rules_out(one[0], values[v]) {
        assert(rules_out(one[0], after[v]));
    }
    if one[0] == values[v] && one[0].len() > 0 && !text::starts_with(one[0], "!"@) {
        assert(one[0] == after[v]);
    }
}

proof fn lemma_next_item(values: Seq<Seq<char>>, items: Seq<Seq<char>>, w: int)
    requires
        0 <= w < items.len(),
    ensures
        some_named(values, items.take(w + 1)) == (some_named(values, items.take(w)) || some_named(
            values,
            seq![items[w]],
        )),
        some_ruled_out(values, items.take(w + 1)) == (some_ruled_out(values, items.take(w))
            || some_ruled_out(values, seq![items[w]])),
{
    let after = items.take(w + 1);
    let before = items.take(w);
    let one = seq![items[w]];
    assert(after[w] == items[w] && one[0] == items[w]);
    if some_named(values, before) {
        let (v, k) = choose|v: int, k: int|
            0 <= v < values.len() && 0 <= k < before.len() && #[trigger] before[k]
                == #[trigger] values[v] && before[k].len() > 0 && !text::starts_with(
                before[k],
                "!"@,
            );
        assert(after[k] == before[k]);
        assert(after[k] == values[v]);
    }
    if some_named(values, one) {
        let (v, k) = choose|v: int, k: int|
            0 <= v < values.len() && 0 <= k < one.len() && #[trigger] one[k] == #[trigger] values[v]
                && one[k].len() > 0 && !text::starts_with(one[k], "!"@);
        assert(after[w] == values[v]);
    }
    if some_named(values, after) {
        let (v, k) = choose|v: int, k: int|
            0 <= v < values.len() && 0 <= k < after.len() && #[trigger] after[k]
                == #[trigger] values[v] && after[k].len() > 0 && !text::starts_with(
                after[k],
                "!"@,
            );
        if k < w {
            assert(before[k] == values[v]);
        } else {
            assert(one[0] == values[v]);
        }
    }
    if some_ruled_out(values, before) {
        let (v, k) = choose|v: int, k: int|
            0 <= v < values.len() && 0 <= k < before.len() && rules_out(
                #[trigger] before[k],
                #[trigger] values[v],
            );
        assert(rules_out(after[k], values[v]));
    }
    if some_ruled_out(values, one) {
        let (v, k) = choose|v: int, k: int|
            0 <= v < values.len() && 0 <= k < one.len() && rules_out(
                #[trigger] one[k],
                #[trigger] values[v],
            );
        assert(rules_out(after[w], values[v]));
    }
    if some_ruled_out(values, after) {
        let (v, k) = choose|v: int, k: int|
            0 <= v < values.len() && 0 <= k < after.len() && rules_out(
                #[trigger] after[k],
                #[trigger] values[v],
            );
        if k < w {
            assert(rules_out(before[k], values[v]));
        } else {
            assert(rules_out(one[0], values[v]));
        }
    }
}

/// How a character is written in a JSON text: quotes, backslashes and control
/// characters are escaped.
pub open spec fn json_char(c: char) -> Seq<char> {
    if c == '"' || c == '\\' {
        seq!['\\', c]
    } else if c == '\u{8}' {
        seq!['\\', 'b']
    } else if c == '\t' {
        seq!['\\', 't']
    } else if c == '\n' {
        seq!['\\', 'n']
    } else if c == '\u{c}' {
        seq!['\\', 'f']
    } else if c == '\r' {
        seq!['\\', 'r']
    } else if (c as int) < 0x20 {
        let digits = "0123456789abcdef"@;
        seq!['\\', 'u', '0', '0', digits[(c as int) / 16], digits[(c as int) % 16]]
    } else {
        seq![c]
    }
}

/// How the characters of a text are written in JSON.
pub open spec fn json_chars(s: Seq<char>) -> Seq<char>
    decreases s.len(),
{
    if s.len() == 0 {
        Seq::empty()
    } else {
        json_chars(s.drop_last()) + json_char(s.last())
    }
}

/// How texts are written one after the other in JSON.
pub open spec fn json_items(list: Seq<Seq<char>>) -> Seq<char>
    decreases list.len(),
{
    if list.len() == 0 {
        Seq::empty()
    } else {
        let before = json_items(list.drop_last());
        (if list.len() == 1 {
            before
        } else {
            before.push(',')
        }) + seq!['"'] + json_chars(list.last()) + seq!['"']
    }
}

/// How a list of texts is written in JSON.
pub open spec fn json_list_text(list: Seq<Seq<char>>) -> Seq<char> {
    seq!['['] + json_items(list) + seq![']']
}

/// Writes a list of texts with `serde_json::to_string`: quoted, with commas
/// between them and brackets around them, and with nothing else in between.
#[verifier::external_body]
fn write_json_list(list: &Vec<String>) -> (s: String)
    ensures
        s@ == json_list_text(list.deep_view()),
{
    serde_json::to_string(list).unwrap_or_default()
}

/// What a package asks for where it says nothing.
pub open spec fn wanted_or_any(wanted: Option<Seq<Seq<char>>>) -> Seq<Seq<char>> {
    match wanted {
        Some(wanted) => wanted,
        None => seq!["any"@],
    }
}

fn any_list() -> (list: Vec<String>)
    ensures
        list.deep_view() == seq!["any"@],
{
    let mut list: Vec<String> = Vec::new();
    list.push(text::copy("any"));
    assert(list.deep_view() =~= seq!["any"@]);
    list
}

fn one(value: &str) -> (list: Vec<String>)
    ensures
        list.deep_view() == seq![value@],
{
    let mut list: Vec<String> = Vec::new();
    list.push(text::copy(value));
    assert(list.deep_view() =~= seq![value@]);
    list
}

/// A machine is one that a package asks for. A C library that is not known does
/// not count.
pub open spec fn platform_fits(
    machine: MachineModel,
    cpu: Option<Seq<Seq<char>>>,
    os: Option<Seq<Seq<char>>>,
    libc: Option<Seq<Seq<char>>>,
) -> bool {
    admits(seq![machine.os], wanted_or_any(os)) && admits(seq![machine.cpu], wanted_or_any(cpu)) && (
    machine.libc == "unknown"@ || admits(seq![machine.libc], wanted_or_any(libc)))
}

/// What is told of a package that asks for another machine.
pub open spec fn platform_message(
    package_id: Seq<char>,
    machine: MachineModel,
    cpu: Option<Seq<Seq<char>>>,
    os: Option<Seq<Seq<char>>>,
    libc: Option<Seq<Seq<char>>>,
) -> Seq<char> {
    "Unsupported platform for "@ + package_id + ": wanted {\"cpu\":"@ + json_list_text(
        wanted_or_any(cpu),
    ) + ",\"os\":"@ + json_list_text(wanted_or_any(os)) + ",\"libc\":"@ + json_list_text(
        wanted_or_any(libc),
    ) + "} (current: {\"os\":\""@ + machine.os + "\",\"cpu\":\""@ + machine.cpu + "\",\"libc\":\""@
        + machine.libc + "\"})"@
}

/// What is told of a package that asks for another machine.
pub fn platform_warning(
    package_id: &str,
    cpu: Option<&Vec<String>>,
    os: Option<&Vec<String>>,
    libc: Option<&Vec<String>>,
    machine: &Machine,
) -> (warning: Option<String>)
    ensures
        match warning {
            None => platform_fits(
                machine.deep_view(),
                cpu.deep_view(),
                os.deep_view(),
                libc.deep_view(),
            ),
            Some(message) => !platform_fits(
                machine.deep_view(),
                cpu.deep_view(),
                os.deep_view(),
                libc.deep_view(),
            ) && message@ == platform_message(
                package_id@,
                machine.deep_view(),
                cpu.deep_view(),
                os.deep_view(),
                libc.deep_view(),
            ),
        },
{
    let any = any_list();
    let wanted_cpu = match cpu {
        Some(wanted) => wanted,
        None => &any,
    };
    let wanted_os = match os {
        Some(wanted) => wanted,
        None => &any,
    };
    let wanted_libc = match libc {
        Some(wanted) => wanted,
        None => &any,
    };
    let os_ok = check_list(&one(machine.os.as_str()), wanted_os);
    let cpu_ok = check_list(&one(machine.cpu.as_str()), wanted_cpu);
    let libc_ok = text::same_text(machine.libc.as_str(), "unknown") || check_list(
        &one(machine.libc.as_str()),
        wanted_libc,
    );
    if os_ok && cpu_ok && libc_ok {
        return None;
    }
    let wanted = text::copy("Unsupported platform for ").concat(package_id).concat(
        ": wanted {\"cpu\":",
    ).concat(write_json_list(wanted_cpu).as_str()).concat(",\"os\":").concat(
        write_json_list(wanted_os).as_str(),
    ).concat(",\"libc\":").concat(write_json_list(wanted_libc).as_str());
    Some(
        wanted.concat("} (current: {\"os\":\"").concat(machine.os.as_str()).concat(
            "\",\"cpu\":\"",
        ).concat(machine.cpu.as_str()).concat("\",\"libc\":\"").concat(
            machine.libc.as_str(),
        ).concat("\"})"),
    )
}

/// The range of Node.js versions that a package asks for, where it matters.
pub open spec fn wanted_node(
    engines: Option<Map<Seq<char>, Seq<char>>>,
    node: Option<VersionModel>,
) -> Option<Seq<char>> {
    match (engines, node) {
        (Some(engines), Some(_)) => if engines.dom().contains("node"@) {
            Some(engines["node"@])
        } else {
            None
        },
        _ => None,
    }
}

/// Node.js is there in a version that a package asks for. What cannot be read
/// as a range does not count.
pub open spec fn engine_fits(
    engines: Option<Map<Seq<char>, Seq<char>>>,
    node: Option<VersionModel>,
) -> bool {
    match wanted_node(engines, node) {
        Some(range) => !semver::range_parses(range) || semver::range_admits(range, node->0),
        None => true,
    }
}

/// The range of Node.js versions that a package asks for can be read without
/// harm.
pub open spec fn engine_is_readable(
    engines: Option<Map<Seq<char>, Seq<char>>>,
    node: Option<VersionModel>,
) -> bool {
    match wanted_node(engines, node) {
        Some(range) => !semver::range_is_unreadable(range),
        None => true,
    }
}

/// What is told of a package that asks for another version of Node.js.
pub open spec fn engine_message(package_id: Seq<char>, range: Seq<char>, node: VersionModel) -> Seq<
    char,
> {
    "Unsupported engine for "@ + package_id + ": wanted: {\"node\":\""@ + range
        + "\"} (current: {\"node\":\""@ + semver::version_text(node) + "\"})"@
}

/// What is told of a package that asks for another version of Node.js.
pub fn engine_warning(
    package_id: &str,
    engines: Option<&TextMap<String>>,
    current_node: Option<&Version>,
) -> (warning: Option<String>)
    requires
        engine_is_readable(engines.deep_view(), current_node.deep_view()),
    ensures
        match warning {
            None => engine_fits(engines.deep_view(), current_node.deep_view()),
            Some(message) => !engine_fits(engines.deep_view(), current_node.deep_view())
                && message@ == engine_message(
                package_id@,
                wanted_node(engines.deep_view(), current_node.deep_view())->0,
                (current_node.deep_view())->0,
            ),
        },
{
    let engines = match engines {
        Some(engines) => engines,
        None => {
            return None;
        },
    };
    let node = match current_node {
        Some(node) => node,
        None => {
            return None;
        },
    };
    let range = match engines.get_text("node") {
        Some(range) => range,
        None => {
            return None;
        },
    };
    match semver::satisfies(node, range.as_str()) {
        Some(false) => Some(
            text::copy("Unsupported engine for ").concat(package_id).concat(
                ": wanted: {\"node\":\"",
            ).concat(range.as_str()).concat("\"} (current: {\"node\":\"").concat(
                node.text().as_str(),
            ).concat("\"})"),
        ),
        _ => None,
    }
}

/// What a package asks of the machine.
pub struct Demands {
    pub engines: Option<Map<Seq<char>, Seq<char>>>,
    pub cpu: Option<Seq<Seq<char>>>,
    pub os: Option<Seq<Seq<char>>>,
    pub libc: Option<Seq<Seq<char>>>,
}

/// A package fits the machine.
pub open spec fn fits(demands: Demands, machine: MachineModel) -> bool {
    platform_fits(machine, demands.cpu, demands.os, demands.libc) && engine_fits(
        demands.engines,
        machine.node,
    )
}

/// What a package asks for can be held against the machine: the range of Node.js
/// versions can be read without harm, unless the platform decides.
pub open spec fn can_be_judged(demands: Demands, machine: MachineModel) -> bool {
    platform_fits(machine, demands.cpu, demands.os, demands.libc) ==> engine_is_readable(
        demands.engines,
        machine.node,
    )
}

/// Whether what a package asks for can be held against the machine.
pub fn demands_are_readable(
    engines: Option<&TextMap<String>>,
    cpu: Option<&Vec<String>>,
    os: Option<&Vec<String>>,
    libc: Option<&Vec<String>>,
    machine: &Machine,
) -> (yes: bool)
    ensures
        yes == can_be_judged(
            (Demands {
                engines: engines.deep_view(),
                cpu: cpu.deep_view(),
                os: os.deep_view(),
                libc: libc.deep_view(),
            }),
            machine.deep_view(),
        ),
{
    if platform_warning("", cpu, os, libc, machine).is_some() {
        return true;
    }
    match (engines, &machine.node) {
        (Some(engines), Some(_)) => match engines.get_text("node") {
            Some(range) => semver::range_is_readable(range.as_str()),
            None => true,
        },
        _ => true,
    }
}

/// What becomes of a package: an optional one that does not fit is skipped.
pub open spec fn installability(demands: Demands, machine: MachineModel, optional: bool) -> Installability {
    if optional && !fits(demands, machine) {
        Installability::SkipOptional
    } else {
        Installability::Install
    }
}

/// What becomes of a package, what is warned of, and what is told.
#[derive(Debug)]
pub struct Verdict {
    pub installability: Installability,
    pub warning: Option<String>,
    pub info: Option<String>,
}

/// What is warned of about a package.
pub open spec fn warning_of(
    package_id: Seq<char>,
    demands: Demands,
    machine: MachineModel,
) -> Option<Seq<char>> {
    if !platform_fits(machine, demands.cpu, demands.os, demands.libc) {
        Some(platform_message(package_id, machine, demands.cpu, demands.os, demands.libc))
    } else if !engine_fits(demands.engines, machine.node) {
        Some(
            engine_message(
                package_id,
                wanted_node(demands.engines, machine.node)->0,
                machine.node->0,
            ),
        )
    } else {
        None
    }
}

/// What is told about an optional package that is skipped.
pub open spec fn info_of(
    package_id: Seq<char>,
    demands: Demands,
    machine: MachineModel,
    optional: bool,
) -> Option<Seq<char>> {
    if optional && !fits(demands, machine) {
        Some(
            package_id
                + " is an optional dependency and failed compatibility check. Excluding it from installation."@,
        )
    } else {
        None
    }
}

/// The verdict on a package.
pub open spec fn is_verdict(
    verdict: Verdict,
    package_id: Seq<char>,
    demands: Demands,
    machine: MachineModel,
    optional: bool,
    emit: bool,
) -> bool {
    &&& verdict.installability == installability(demands, machine, optional)
    &&& verdict.warning.deep_view() == (if emit {
        warning_of(package_id, demands, machine)
    } else {
        None
    })
    &&& verdict.info.deep_view() == (if emit {
        info_of(package_id, demands, machine, optional)
    } else {
        None
    })
}

/// The verdict on a package that asks for `engines`, `cpu`, `os` and `libc`;
/// without `emit` nothing is told.
pub fn installability_for_values(
    engines: Option<&TextMap<String>>,
    cpu: Option<&Vec<String>>,
    os: Option<&Vec<String>>,
    libc: Option<&Vec<String>>,
    package_id: &str,
    optional: bool,
    emit: bool,
    machine: &Machine,
) -> (verdict: Verdict)
    requires
        can_be_judged(
            (Demands {
                engines: engines.deep_view(),
                cpu: cpu.deep_view(),
                os: os.deep_view(),
                libc: libc.deep_view(),
            }),
            machine.deep_view(),
        ),
    ensures
        is_verdict(
            verdict,
            package_id@,
            (Demands {
                engines: engines.deep_view(),
                cpu: cpu.deep_view(),
                os: os.deep_view(),
                libc: libc.deep_view(),
            }),
            machine.deep_view(),
            optional,
            emit,
        ),
{
    let warning = match platform_warning(package_id, cpu, os, libc, machine) {
        Some(message) => Some(message),
        None => engine_warning(package_id, engines, machine.node.as_ref()),
    };
    match warning {
        None => Verdict { installability: Installability::Install, warning: None, info: None },
        Some(message) => {
            let installability = if optional {
                Installability::SkipOptional
            } else {
                Installability::Install
            };
            if !emit {
                return Verdict { installability, warning: None, info: None };
            }
            let info = if optional {
                Some(
                    text::copy(package_id).concat(
                        " is an optional dependency and failed compatibility check. Excluding it from installation.",
                    ),
                )
            } else {
                None
            };
            Verdict { installability, warning: Some(message), info }
        },
    }
}

/// What a version of a package asks of the machine.
pub open spec fn version_demands(package: PackageVersion) -> Demands {
    Demands {
        engines: package.engines.deep_view(),
        cpu: package.cpu.deep_view(),
        os: package.os.deep_view(),
        libc: package.libc.deep_view(),
    }
}

/// What a package of a lockfile asks of the machine.
pub open spec fn snapshot_demands(package: PackageSnapshot) -> Demands {
    Demands {
        engines: package.engines.deep_view(),
        cpu: package.cpu.deep_view(),
        os: package.os.deep_view(),
        libc: package.libc.deep_view(),
    }
}

/// The verdict on a version of a package.
pub fn check_package_version_installability(
    package: &PackageVersion,
    optional: bool,
    machine: &Machine,
) -> (verdict: Verdict)
    requires
        can_be_judged(version_demands(*package), machine.deep_view()),
    ensures
        is_verdict(
            verdict,
            registry::package_id(package.name@, package.version.deep_view()),
            version_demands(*package),
            machine.deep_view(),
            optional,
            true,
        ),
{
    let id = package.id();
    installability_for_values(
        package.engines.as_ref(),
        package.cpu.as_ref(),
        package.os.as_ref(),
        package.libc.as_ref(),
        id.as_str(),
        optional,
        true,
        machine,
    )
}

/// Whether a version of a package is skipped where it is optional.
pub fn should_skip_optional_package_version(package: &PackageVersion, machine: &Machine) -> (skip:
    bool)
    requires
        can_be_judged(version_demands(*package), machine.deep_view()),
    ensures
        skip == !fits(version_demands(*package), machine.deep_view()),
{
    let id = package.id();
    let verdict = installability_for_values(
        package.engines.as_ref(),
        package.cpu.as_ref(),
        package.os.as_ref(),
        package.libc.as_ref(),
        id.as_str(),
        true,
        false,
        machine,
    );
    verdict.installability == Installability::SkipOptional
}

/// The verdict on a package of a lockfile.
pub fn check_package_snapshot_installability(
    package_id: &str,
    package: &PackageSnapshot,
    optional: bool,
    machine: &Machine,
) -> (verdict: Verdict)
    requires
        can_be_judged(snapshot_demands(*package), machine.deep_view()),
    ensures
        is_verdict(
            verdict,
            package_id@,
            snapshot_demands(*package),
            machine.deep_view(),
            optional,
            true,
        ),
{
    installability_for_values(
        package.engines.as_ref(),
        package.cpu.as_ref(),
        package.os.as_ref(),
        package.libc.as_ref(),
        package_id,
        optional,
        true,
        machine,
    )
}

/// A package that is needed is never skipped.
pub proof fn law_needed_packages_are_installed(demands: Demands, machine: MachineModel)
    ensures
        installability(demands, machine, false) == Installability::Install,
{
}

/// A list that names the value and one that rules out only others admit it, and
/// a list that rules it out does not.
pub proof fn law_lists(value: Seq<char>, other: Seq<char>)
    requires
        value != other,
        value.len() > 0,
        !text::starts_with(value, "!"@),
    ensures
        admits(seq![value], seq![value]),
        admits(seq![value], seq!["!"@ + other]),
        !admits(seq![value], seq!["!"@ + value]),
{
    reveal_strlit("!");
    reveal_strlit("any");
    let values = seq![value];
    assert(seq![value][0] == values[0]);
    assert(some_named(values, seq![value]));
    let bar = "!"@ + other;
    assert(bar.subrange(0, 1) =~= "!"@);
    assert(text::tail(bar, 1) =~= other);
    let list = seq![bar];
    assert(list.drop_last() =~= Seq::empty());
    assert(list.last() == bar);
    reveal_with_fuel(item_count, 2);
    reveal_with_fuel(barrier_count, 2);
    assert(item_count(list) == 1);
    assert(barrier_count(list) == 1);
    assert(values.len() * barrier_count(list) == 1) by (nonlinear_arith)
        requires
            values.len() == 1,
            barrier_count(list) == 1,
    ;
    let own = "!"@ + value;
    assert(own.subrange(0, 1) =~= "!"@);
    assert(text::tail(own, 1) =~= value);
    assert(rules_out(seq![own][0], values[0]));
    assert(!text::starts_with(value, "!"@));
    assert(seq!["any"@][0] == "any"@);
    assert(seq![own][0] == own && own[0] == '!' && "any"@[0] == 'a');
    assert(seq![bar][0] == bar && bar[0] == '!');
}

/// A list that a package gives of what it runs on, for one value: the list is `any`
/// alone; or nothing in it rules the value out, and either it names the value or all
/// of its items rule out others.
pub proof fn law_list_admits(ok: bool, value: Seq<char>, wanted: Seq<Seq<char>>)
    requires
        ok == admits(seq![value], wanted),
        forall|w: int| 0 <= w < wanted.len() ==> (#[trigger] wanted[w]).len() > 0,
        value.len() > 0,
        value[0] != '!',
    ensures
        wanted == seq!["any"@] ==> ok,
        wanted != seq!["any"@] ==> (ok <==> {
            &&& forall|w: int| 0 <= w < wanted.len() ==> #[trigger] wanted[w] != "!"@ + value
            &&& wanted.contains(value) || forall|w: int|
                0 <= w < wanted.len() ==> (#[trigger] wanted[w])[0] == '!'
        }),
{
    reveal_strlit("!");
    let values = seq![value];
    assert(values[0] == value);
    assert forall|w: int| 0 <= w < wanted.len() implies (rules_out(#[trigger] wanted[w], value)
        <==> wanted[w] == "!"@ + value) by {
        let item = wanted[w];
        if rules_out(item, value) {
            assert(item =~= "!"@ + value);
        }
        if item == "!"@ + value {
            assert(item.subrange(0, 1) =~= "!"@);
            assert(text::tail(item, 1) =~= value);
        }
    }
    if some_ruled_out(values, wanted) {
        let (v, w) = choose|v: int, w: int|
            0 <= v < values.len() && 0 <= w < wanted.len() && rules_out(
                #[trigger] wanted[w],
                #[trigger] values[v],
            );
        assert(wanted[w] == "!"@ + value);
    } else {
        assert forall|w: int| 0 <= w < wanted.len() implies #[trigger] wanted[w] != "!"@ + value by {
            assert(!rules_out(wanted[w], values[0]));
        }
    }
    if wanted.contains(value) {
        let w = wanted.index_of(value);
        assert(wanted[w] == values[0]);
        if text::starts_with(value, "!"@) {
            assert(value.subrange(0, 1)[0] == '!');
        }
        assert(some_named(values, wanted));
    }
    if some_named(values, wanted) {
        let (v, w) = choose|v: int, w: int|
            0 <= v < values.len() && 0 <= w < wanted.len() && #[trigger] wanted[w]
                == #[trigger] values[v] && wanted[w].len() > 0 && !text::starts_with(
                wanted[w],
                "!"@,
            );
        assert(wanted[w] == value);
        assert(wanted.contains(value));
    }
    lemma_only_barriers(wanted);
    assert(values.len() * barrier_count(wanted) == barrier_count(wanted)) by (nonlinear_arith)
        requires
            values.len() == 1,
    ;
}

proof fn lemma_only_barriers(wanted: Seq<Seq<char>>)
    requires
        forall|w: int| 0 <= w < wanted.len() ==> (#[trigger] wanted[w]).len() > 0,
    ensures
        item_count(wanted) == wanted.len(),
        barrier_count(wanted) <= wanted.len(),
        barrier_count(wanted) == wanted.len() <==> forall|w: int|
            0 <= w < wanted.len() ==> (#[trigger] wanted[w])[0] == '!',
    decreases wanted.len(),
{
    reveal_strlit("!");
    if wanted.len() > 0 {
        let rest = wanted.drop_last();
        assert forall|w: int| 0 <= w < rest.len() implies (#[trigger] rest[w]).len() > 0 by {
            assert(rest[w] == wanted[w]);
        }
        lemma_only_barriers(rest);
        let last = wanted.last();
        assert(last == wanted[wanted.len() - 1]);
        if text::starts_with(last, "!"@) {
            assert(last.subrange(0, 1)[0] == last[0]);
        }
        if last[0] == '!' {
            assert(last.subrange(0, 1) =~= "!"@);
        }
        if barrier_count(wanted) == wanted.len() {
            assert forall|w: int| 0 <= w < wanted.len() implies (#[trigger] wanted[w])[0]
                == '!' by {
                if w < rest.len() {
                    assert(rest[w] == wanted[w]);
                }
            }
        }
        if forall|w: int| 0 <= w < wanted.len() ==> (#[trigger] wanted[w])[0] == '!' {
            assert forall|w: int| 0 <= w < rest.len() implies (#[trigger] rest[w])[0] == '!' by {
                assert(rest[w] == wanted[w]);
            }
        }
    }
}

/// The version of Node.js at hand is not one that a package asks for.
pub open spec fn node_is_refused(
    engines: Option<Map<Seq<char>, Seq<char>>>,
    node: Option<VersionModel>,
) -> bool {
    &&& engines is Some && engines->0.dom().contains("node"@)
    &&& node is Some
    &&& semver::range_parses(engines->0["node"@])
    &&& !semver::range_admits(engines->0["node"@], node->0)
}

/// The platform is not one that a package asks for: a list of systems, of processors
/// or of C libraries does not admit it. A C library that is not known is not refused.
pub open spec fn platform_is_refused(demands: Demands, machine: MachineModel) -> bool {
    ||| demands.os is Some && !admits(seq![machine.os], demands.os->0)
    ||| demands.cpu is Some && !admits(seq![machine.cpu], demands.cpu->0)
    ||| demands.libc is Some && machine.libc != "unknown"@ && !admits(
        seq![machine.libc],
        demands.libc->0,
    )
}

/// An optional package is skipped where the platform is not one that it asks for, and
/// just as well where only the version of Node.js is not; a needed one is installed
/// all the same. Either way the user is told why, and of one that is skipped that it
/// is. One that fits is installed, and nothing is told.
pub proof fn law_unfit_optional_packages_are_skipped(
    verdict: Verdict,
    package_id: Seq<char>,
    demands: Demands,
    machine: MachineModel,
    optional: bool,
    emit: bool,
)
    requires
        is_verdict(verdict, package_id, demands, machine, optional, emit),
    ensures
        ({
            let unfit = platform_is_refused(demands, machine) || node_is_refused(
                demands.engines,
                machine.node,
            );
            &&& verdict.installability == Installability::SkipOptional <==> optional && unfit
            &&& verdict.installability == Installability::Install <==> !(optional && unfit)
            &&& verdict.warning is Some <==> emit && unfit
            &&& verdict.info is Some <==> emit && unfit && optional
            &&& emit && node_is_refused(demands.engines, machine.node) && !platform_is_refused(
                demands,
                machine,
            ) ==> verdict.warning->0@ == "Unsupported engine for "@ + package_id
                + ": wanted: {\"node\":\""@ + demands.engines->0["node"@]
                + "\"} (current: {\"node\":\""@ + semver::version_text(machine.node->0) + "\"})"@
            &&& verdict.info is Some ==> verdict.info->0@ == package_id
                + " is an optional dependency and failed compatibility check. Excluding it from installation."@
        }),
{
    let any = seq!["any"@];
    assert(admits(seq![machine.os], any));
    assert(admits(seq![machine.cpu], any));
    assert(admits(seq![machine.libc], any));
}

/// Whether an optional version of a package is skipped is what the verdict on it says.
pub proof fn law_skipping_agrees_with_the_verdict(
    skip: bool,
    verdict: Verdict,
    package: PackageVersion,
    machine: Machine,
)
    requires
        skip == !fits(version_demands(package), machine.deep_view()),
        is_verdict(
            verdict,
            registry::package_id(package.name@, package.version.deep_view()),
            version_demands(package),
            machine.deep_view(),
            true,
            true,
        ),
    ensures
        skip <==> verdict.installability == Installability::SkipOptional,
        node_is_refused(package.engines.deep_view(), machine.node.deep_view()) ==> skip,
        package.os is Some && !admits(seq![machine.os@], package.os->0.deep_view()) ==> skip,
        package.cpu is Some && !admits(seq![machine.cpu@], package.cpu->0.deep_view()) ==> skip,
        package.libc is Some && machine.libc@ != "unknown"@ && !admits(
            seq![machine.libc@],
            package.libc->0.deep_view(),
        ) ==> skip,
{
}

/// A package of a lockfile is judged by what the lockfile keeps of its demands.
pub proof fn law_lockfile_entry_is_judged_by_its_demands(
    verdict: Verdict,
    package_id: Seq<char>,
    package: PackageSnapshot,
    machine: Machine,
)
    requires
        is_verdict(
            verdict,
            package_id,
            snapshot_demands(package),
            machine.deep_view(),
            true,
            true,
        ),
    ensures
        node_is_refused(package.engines.deep_view(), machine.node.deep_view())
            ==> verdict.installability == Installability::SkipOptional,
        package.os is Some && !admits(seq![machine.os@], package.os->0.deep_view())
            ==> verdict.installability == Installability::SkipOptional,
        package.cpu is Some && !admits(seq![machine.cpu@], package.cpu->0.deep_view())
            ==> verdict.installability == Installability::SkipOptional,
        package.libc is Some && machine.libc@ != "unknown"@ && !admits(
            seq![machine.libc@],
            package.libc->0.deep_view(),
        ) ==> verdict.installability == Installability::SkipOptional,
{
}

/// What is told of a platform that is not asked for names the package, what it asks
/// for and what the machine is.
pub proof fn law_platform_warning_tells_both(
    verdict: Verdict,
    package_id: Seq<char>,
    demands: Demands,
    machine: MachineModel,
    optional: bool,
)
    requires
        is_verdict(verdict, package_id, demands, machine, optional, true),
        platform_is_refused(demands, machine),
    ensures
        ({
            let wanted = |list: Option<Seq<Seq<char>>>|
                json_list_text(
                    if list is Some {
                        list->0
                    } else {
                        seq!["any"@]
                    },
                );
            verdict.warning.deep_view() == Some(
                "Unsupported platform for "@ + package_id + ": wanted {\"cpu\":"@ + wanted(
                    demands.cpu,
                ) + ",\"os\":"@ + wanted(demands.os) + ",\"libc\":"@ + wanted(demands.libc)
                    + "} (current: {\"os\":\""@ + machine.os + "\",\"cpu\":\""@ + machine.cpu
                    + "\",\"libc\":\""@ + machine.libc + "\"})"@,
            )
        }),
{
}

} // verus!
