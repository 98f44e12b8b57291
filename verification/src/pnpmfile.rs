//! What a manifest asks for, and the hooks of a pnpmfile that may change it.
use crate::json;
use crate::json::{Json, JsonModel};
use crate::lockfile::DependencyGroup;
use crate::manifest_check;
use crate::paths;
use crate::table;
use crate::table::{Table, TextMap};
use crate::text;
use crate::value::Value;
use vstd::prelude::*;
use vstd::string::*;

verus! {

/// A dependency that a manifest asks for: in which group, under which name,
/// and what.
pub type Wish = (DependencyGroup, Seq<char>, Seq<char>);

/// The dependencies of one group of a manifest.
pub open spec fn group_wishes(manifest: &Json, group: DependencyGroup) -> Seq<Wish> {
    json::entries_of(json::child(manifest, manifest_check::group_field(group))).map_values(
        |entry: (Seq<char>, Seq<char>)| (group, entry.0, entry.1),
    )
}

/// The dependencies of some groups of a manifest, group by group.
pub open spec fn wishes(manifest: &Json, groups: Seq<DependencyGroup>) -> Seq<Wish>
    decreases groups.len(),
{
    if groups.len() == 0 {
        Seq::empty()
    } else {
        wishes(manifest, groups.drop_last()) + group_wishes(manifest, groups.last())
    }
}

/// A dependency as a mathematical value.
pub open spec fn wish_of(entry: (DependencyGroup, String, String)) -> Wish {
    (entry.0, entry.1@, entry.2@)
}

/// Dependencies as mathematical values.
pub open spec fn wishes_of(entries: Seq<(DependencyGroup, String, String)>) -> Seq<Wish> {
    entries.map_values(|entry: (DependencyGroup, String, String)| wish_of(entry))
}

/// How a group is called in a manifest.
pub fn group_name(group: DependencyGroup) -> (name: &'static str)
    ensures
        name@ == manifest_check::group_field(group),
{
    match group {
        DependencyGroup::Prod => "dependencies",
        DependencyGroup::Optional => "optionalDependencies",
        DependencyGroup::Dev => "devDependencies",
        DependencyGroup::Peer => "peerDependencies",
    }
}

/// The dependencies of some groups of a manifest, group by group.
pub fn dependencies_from_manifest_value_grouped(
    manifest: &Json,
    groups: &Vec<DependencyGroup>,
) -> (entries: Vec<(DependencyGroup, String, String)>)
    ensures
        wishes_of(entries@) == wishes(manifest, groups@),
{
    let mut entries: Vec<(DependencyGroup, String, String)> = Vec::new();
    let mut g: usize = 0;
    assert(wishes_of(entries@) =~= wishes(manifest, groups@.take(0)));
    while g < groups.len()
        invariant
            g <= groups@.len(),
            wishes_of(entries@) == wishes(manifest, groups@.take(g as int)),
        decreases groups@.len() - g,
    {
        let group = groups[g];
        let listed = json::json_text_entries(manifest.get(group_name(group)));
        let ghost before = wishes_of(entries@);
        let ghost here = group_wishes(manifest, group);
        let mut i: usize = 0;
        assert(here.take(0) =~= Seq::empty());
        assert(before + Seq::<Wish>::empty() =~= before);
        while i < listed.len()
            invariant
                i <= listed@.len(),
                here == group_wishes(manifest, group),
                listed.deep_view() == json::entries_of(
                    json::child(manifest, manifest_check::group_field(group)),
                ),
                wishes_of(entries@) == before + here.take(i as int),
            decreases listed@.len() - i,
        {
            let ghost held = entries@;
            entries.push((group, listed[i].0.clone(), listed[i].1.clone()));
            proof {
                assert(listed.deep_view()[i as int] == (listed@[i as int].0@, listed@[i as int].1@));
                assert(here.take(i + 1) =~= here.take(i as int).push(here[i as int]));
                assert(wishes_of(entries@) =~= wishes_of(held).push(here[i as int]));
                assert(wishes_of(entries@) =~= before + here.take(i + 1));
            }
            i = i + 1;
        }
        proof {
            assert(here.take(i as int) =~= here);
            assert(groups@.take(g + 1).drop_last() =~= groups@.take(g as int));
        }
        g = g + 1;
    }
    assert(groups@.take(g as int) =~= groups@);
    entries
}

/// Dependencies without their groups.
pub open spec fn ungrouped(all: Seq<Wish>) -> Seq<(Seq<char>, Seq<char>)> {
    all.map_values(|wish: Wish| (wish.1, wish.2))
}

/// The dependencies of some groups of a manifest, without the groups.
pub fn dependencies_from_manifest_value(
    manifest: &Json,
    groups: &Vec<DependencyGroup>,
) -> (entries: Vec<(String, String)>)
    ensures
        entries.deep_view() == ungrouped(wishes(manifest, groups@)),
{
    let grouped = dependencies_from_manifest_value_grouped(manifest, groups);
    let ghost all = wishes(manifest, groups@);
    let mut entries: Vec<(String, String)> = Vec::new();
    let mut i: usize = 0;
    assert(entries.deep_view() =~= ungrouped(all.take(0)));
    while i < grouped.len()
        invariant
            i <= grouped@.len(),
            wishes_of(grouped@) == all,
            entries.deep_view() == ungrouped(all.take(i as int)),
        decreases grouped@.len() - i,
    {
        let ghost before = entries.deep_view();
        entries.push((grouped[i].1.clone(), grouped[i].2.clone()));
        proof {
            assert(all[i as int] == wish_of(grouped@[i as int]));
            assert(entries.deep_view() =~= before.push((all[i as int].1, all[i as int].2)));
            assert(all.take(i + 1) =~= all.take(i as int).push(all[i as int]));
            assert(ungrouped(all.take(i + 1)) =~= ungrouped(all.take(i as int)).push(
                (all[i as int].1, all[i as int].2),
            ));
        }
        i = i + 1;
    }
    assert(all.take(i as int) =~= all);
    entries
}

/// The catalog that a specifier names.
pub open spec fn catalog_name(rest: Seq<char>) -> Seq<char> {
    if rest.len() == 0 || rest == "default"@ {
        "default"@
    } else {
        rest
    }
}

/// What stands behind a specifier, given the catalogs.
pub open spec fn catalog_specifier(
    spec_text: Seq<char>,
    package_name: Seq<char>,
    catalogs: Map<Seq<char>, Map<Seq<char>, Seq<char>>>,
) -> Result<Seq<char>, Seq<char>> {
    match text::stripped_prefix(spec_text, "catalog:"@) {
        None => Ok(spec_text),
        Some(rest) => {
            let name = catalog_name(rest);
            if catalogs.dom().contains(name) && catalogs[name].dom().contains(package_name) {
                Ok(catalogs[name][package_name])
            } else {
                Err("Missing version catalog: "@ + name + " on package "@ + package_name)
            }
        },
    }
}

/// The text that a result holds on either side.
pub open spec fn text_result(result: Result<String, String>) -> Result<Seq<char>, Seq<char>> {
    match result {
        Ok(s) => Ok(s@),
        Err(s) => Err(s@),
    }
}

/// What stands behind a specifier. One of the form `catalog:` or
/// `catalog:default` is looked up in the default catalog, one of the form
/// `catalog:<name>` in the one with that name, and any other stands for itself.
pub fn resolve_catalog_specifier(
    spec_text: &str,
    package_name: &str,
    catalogs: &TextMap<TextMap<String>>,
) -> (found: Result<String, String>)
    ensures
        text_result(found) == catalog_specifier(spec_text@, package_name@, catalogs.deep_view()),
{
    let rest = match text::strip_prefix(spec_text, "catalog:") {
        Some(rest) => rest,
        None => {
            return Ok(text::copy(spec_text));
        },
    };
    let name = if rest.unicode_len() == 0 || text::same_text(rest, "default") {
        "default"
    } else {
        rest
    };
    if let Some(catalog) = catalogs.get_text(name) {
        if let Some(found) = catalog.get_text(package_name) {
            return Ok(found.clone());
        }
    }
    Err(
        text::copy("Missing version catalog: ").concat(name).concat(" on package ").concat(
            package_name,
        ),
    )
}

/// The entries of one catalog on top of those that it has.
pub open spec fn with_catalog(
    catalogs: Map<Seq<char>, Map<Seq<char>, Seq<char>>>,
    name: Seq<char>,
    entries: Map<Seq<char>, Seq<char>>,
) -> Map<Seq<char>, Map<Seq<char>, Seq<char>>> {
    let before = if catalogs.dom().contains(name) {
        catalogs[name]
    } else {
        Map::empty()
    };
    catalogs.insert(name, before.union_prefer_right(entries))
}

fn add_catalog(catalogs: &mut TextMap<TextMap<String>>, name: &str, entries: &Json)
    ensures
        final(catalogs).deep_view() == with_catalog(
            old(catalogs).deep_view(),
            name@,
            json::text_fields(entries.deep_view()),
        ),
{
    let mut catalog: TextMap<String> = match catalogs.get_text(name) {
        Some(catalog) => catalog.duplicate(),
        None => Table::new(),
    };
    catalog.extend(&json::json_string_map(Some(entries)));
    catalogs.insert(text::copy(name), catalog);
}

/// The catalog that the workspace calls `name`, on top of those found so far.
pub open spec fn named_catalog(
    fields: Map<Seq<char>, JsonModel>,
    name: Seq<char>,
) -> Option<Map<Seq<char>, Seq<char>>> {
    if fields.dom().contains(name) && fields[name] is Object {
        Some(json::text_fields(fields[name]))
    } else {
        None
    }
}

/// The catalogs of a workspace.
pub open spec fn workspace_catalogs(workspace: JsonModel) -> Map<
    Seq<char>,
    Map<Seq<char>, Seq<char>>,
> {
    let first: Map<Seq<char>, Map<Seq<char>, Seq<char>>> = match json::field(
        workspace,
        "catalog"@,
    ) {
        Some(JsonModel::Object(fields)) => with_catalog(
            Map::empty(),
            "default"@,
            json::text_fields(JsonModel::Object(fields)),
        ),
        _ => Map::empty(),
    };
    match json::field(workspace, "catalogs"@) {
        Some(JsonModel::Object(fields)) => with_named_catalogs(first, fields, fields.dom()),
        _ => first,
    }
}

/// The catalogs with the named ones among `names` on top.
pub open spec fn with_named_catalogs(
    first: Map<Seq<char>, Map<Seq<char>, Seq<char>>>,
    fields: Map<Seq<char>, JsonModel>,
    names: Set<Seq<char>>,
) -> Map<Seq<char>, Map<Seq<char>, Seq<char>>> {
    Map::new(
        |name: Seq<char>|
            first.dom().contains(name) || (names.contains(name) && named_catalog(
                fields,
                name,
            ) is Some),
        |name: Seq<char>|
            if names.contains(name) && named_catalog(fields, name) is Some {
                with_catalog(first, name, named_catalog(fields, name)->0)[name]
            } else {
                first[name]
            },
    )
}

/// The catalogs of a workspace: the one under `catalog` is the default one, and
/// those under `catalogs` have names.
pub fn load_catalogs_from_workspace(workspace: Option<&Json>) -> (catalogs: TextMap<
    TextMap<String>,
>)
    ensures
        catalogs.deep_view() == (match workspace.deep_view() {
            Some(workspace) => workspace_catalogs(workspace),
            None => Map::empty(),
        }),
{
    let mut catalogs: TextMap<TextMap<String>> = Table::new();
    let workspace = match workspace {
        Some(workspace) => workspace,
        None => {
            return catalogs;
        },
    };
    if let Some(entries) = workspace.get("catalog") {
        if let Json::Object(_) = entries {
            add_catalog(&mut catalogs, "default", entries);
        }
    }
    if let Some(Json::Object(fields)) = workspace.get("catalogs") {
        let names = json::field_names(fields);
        let ghost first = catalogs.deep_view();
        let ghost model = json::fields_model(fields@);
        let ghost all = names.deep_view();
        let mut i: usize = 0;
        proof {
            assert(all.take(0).to_set() =~= Set::empty());
            assert(with_named_catalogs(first, model, Set::empty()) =~= first);
            sorted_names_differ(all);
        }
        while i < names.len()
            invariant
                i <= names@.len(),
                all == names.deep_view(),
                all.no_duplicates(),
                model == json::fields_model(fields@),
                all.to_set() == model.dom(),
                catalogs.deep_view() == with_named_catalogs(
                    first,
                    model,
                    all.take(i as int).to_set(),
                ),
            decreases names@.len() - i,
        {
            let name = names[i].as_str();
            let ghost done = all.take(i as int).to_set();
            let ghost before = catalogs.deep_view();
            proof {
                assert(name@ == all[i as int]);
                assert(all.to_set().contains(name@));
                assert(all.take(i + 1) =~= all.take(i as int).push(name@));
                assert(all.take(i + 1).to_set() =~= done.insert(name@)) by {
                    assert forall|other: Seq<char>|
                        all.take(i + 1).contains(other) <==> done.insert(name@).contains(other) by {
                        if all.take(i + 1).contains(other) {
                            let k = all.take(i + 1).index_of(other);
                            if k < i {
                                assert(all.take(i as int)[k] == other);
                            }
                        }
                        if done.contains(other) {
                            let k = all.take(i as int).index_of(other);
                            assert(all.take(i + 1)[k] == other);
                        }
                        assert(all.take(i + 1)[i as int] == name@);
                    }
                }
                assert(!done.contains(name@)) by {
                    if all.take(i as int).contains(name@) {
                        let k = all.take(i as int).index_of(name@);
                        assert(all[k] == all[i as int]);
                    }
                }
            }
            if let Some(k) = json::find_field(fields, name) {
                if let Json::Object(_) = &fields[k].1 {
                    add_catalog(&mut catalogs, name, &fields[k].1);
                }
            }
            assert(catalogs.deep_view() =~= with_named_catalogs(first, model, done.insert(name@)));
            i = i + 1;
        }
        assert(all.take(i as int) =~= all);
    }
    catalogs
}

proof fn sorted_names_differ(all: Seq<Seq<char>>)
    requires
        crate::sorted::is_sorted(all),
    ensures
        all.no_duplicates(),
{
    crate::sorted::lemma_sorted_distinct(all);
}

/// Where the pnpmfile is.
pub open spec fn pnpmfile_path(
    lockfile_dir: Seq<char>,
    pnpmfile: Option<Seq<char>>,
    on_windows: bool,
) -> Seq<char> {
    match pnpmfile {
        Some(path) => if paths::is_absolute(path, on_windows) {
            path
        } else {
            paths::joined(lockfile_dir, path, on_windows)
        },
        None => paths::joined(lockfile_dir, ".pnpmfile.cjs"@, on_windows),
    }
}

/// Where the pnpmfile is: where it is said to be, as seen from the lockfile, or
/// else beside the lockfile.
pub fn resolve_pnpmfile_path(
    lockfile_dir: &str,
    pnpmfile: Option<&str>,
    on_windows: bool,
) -> (path: String)
    ensures
        path@ == pnpmfile_path(lockfile_dir@, pnpmfile.deep_view(), on_windows),
{
    match pnpmfile {
        Some(path) => if paths::is_absolute_path(path, on_windows) {
            text::copy(path)
        } else {
            paths::join_paths(lockfile_dir, path, on_windows)
        },
        None => paths::join_paths(lockfile_dir, ".pnpmfile.cjs", on_windows),
    }
}

/// What is done about a hook: the payload goes through as it is, or the hook of
/// the pnpmfile at a path is run.
#[derive(Debug)]
pub enum HookStep {
    Skip,
    Run { pnpmfile: String },
}

/// What is done about a hook, given which files there are.
pub fn hook_step(
    lockfile_dir: &str,
    pnpmfile: Option<&str>,
    ignore_pnpmfile: bool,
    is_file: bool,
    on_windows: bool,
) -> (step: HookStep)
    ensures
        match step {
            HookStep::Skip => ignore_pnpmfile || !is_file,
            HookStep::Run { pnpmfile: path } => !ignore_pnpmfile && is_file && path@
                == pnpmfile_path(lockfile_dir@, pnpmfile.deep_view(), on_windows),
        },
{
    if ignore_pnpmfile || !is_file {
        HookStep::Skip
    } else {
        HookStep::Run { pnpmfile: resolve_pnpmfile_path(lockfile_dir, pnpmfile, on_windows) }
    }
}

/// What `node` left when it ran a pnpmfile.
#[derive(Debug)]
pub struct NodeReply {
    pub succeeded: bool,
    pub stdout: String,
    pub stderr: String,
}

/// Whether a pnpmfile exports something, given what `node` said of it; where
/// there is no such file, nobody is asked.
pub fn pnpmfile_exports_value(pnpmfile: &str, reply: Option<&NodeReply>) -> (exports: Result<
    Option<bool>,
    String,
>)
    ensures
        match (exports, reply) {
            (Ok(None), _) => reply is None,
            (Ok(Some(yes)), Some(reply)) => reply.succeeded && yes == (text::trimmed(
                reply.stdout@,
            ) == "defined"@),
            (Ok(Some(_)), None) => false,
            (Err(message), Some(reply)) => !reply.succeeded && message@
                == "Failed to inspect pnpmfile "@ + pnpmfile@ + ": "@ + text::trimmed(
                reply.stderr@,
            ),
            (Err(_), None) => false,
        },
{
    let reply = match reply {
        Some(reply) => reply,
        None => {
            return Ok(None);
        },
    };
    if !reply.succeeded {
        let said = text::trim_blanks(reply.stderr.as_str());
        return Err(
            text::copy("Failed to inspect pnpmfile ").concat(pnpmfile).concat(": ").concat(said),
        );
    }
    Ok(Some(text::same_text(text::trim_blanks(reply.stdout.as_str()), "defined")))
}

/// What a hook wrote, if it ran through.
pub fn hook_reply(hook_name: &str, reply: NodeReply) -> (output: Result<String, String>)
    ensures
        match output {
            Ok(written) => reply.succeeded && written == reply.stdout,
            Err(message) => !reply.succeeded && message@ == ".pnpmfile.cjs "@ + hook_name@
                + " hook failed: "@ + text::trimmed(reply.stderr@),
        },
{
    if !reply.succeeded {
        let said = text::trim_blanks(reply.stderr.as_str());
        return Err(
            text::copy(".pnpmfile.cjs ").concat(hook_name).concat(" hook failed: ").concat(said),
        );
    }
    Ok(reply.stdout)
}

/// What a hook hands back: a payload, or nothing where it leaves it as it was,
/// and what it wants to be told.
#[derive(Debug)]
pub struct HookOutput {
    pub result: Option<Json>,
    pub logs: Vec<String>,
}

/// What is told of a hook.
pub open spec fn hook_lines(hook_name: Seq<char>, logs: Seq<Seq<char>>) -> Seq<Seq<char>> {
    logs.map_values(|message: Seq<char>| hook_name + ": "@ + message)
}

/// What a hook leaves of a payload, and what is told of it.
pub fn take_hook_output(hook_name: &str, payload: &Json, output: HookOutput) -> (taken: (
    Json,
    Vec<String>,
))
    ensures
        taken.0.deep_view() == (match output.result {
            Some(result) => result.deep_view(),
            None => payload.deep_view(),
        }),
        taken.1.deep_view() == hook_lines(hook_name@, output.logs.deep_view()),
{
    let ghost logs = output.logs.deep_view();
    let mut lines: Vec<String> = Vec::new();
    let mut i: usize = 0;
    assert(lines.deep_view() =~= hook_lines(hook_name@, logs.take(0)));
    while i < output.logs.len()
        invariant
            i <= output.logs@.len(),
            logs == output.logs.deep_view(),
            lines.deep_view() == hook_lines(hook_name@, logs.take(i as int)),
        decreases output.logs@.len() - i,
    {
        let ghost before = lines.deep_view();
        lines.push(text::copy(hook_name).concat(": ").concat(output.logs[i].as_str()));
        proof {
            let line = hook_name@ + ": "@ + logs[i as int];
            assert(lines.deep_view() =~= before.push(line));
            assert(logs.take(i + 1) =~= logs.take(i as int).push(logs[i as int]));
            assert(hook_lines(hook_name@, logs.take(i + 1)) =~= hook_lines(
                hook_name@,
                logs.take(i as int),
            ).push(line));
        }
        i = i + 1;
    }
    assert(logs.take(i as int) =~= logs);
    let result = match output.result {
        Some(result) => result,
        None => payload.duplicate(),
    };
    (result, lines)
}

/// Every specifier that is no reference to a catalog stands for itself.
pub proof fn law_plain_specifiers_stay(
    spec_text: Seq<char>,
    package_name: Seq<char>,
    catalogs: Map<Seq<char>, Map<Seq<char>, Seq<char>>>,
)
    requires
        !text::starts_with(spec_text, "catalog:"@),
    ensures
        catalog_specifier(spec_text, package_name, catalogs) == Ok::<Seq<char>, Seq<char>>(
            spec_text,
        ),
{
}

/// `catalog:` and `catalog:default` are one and the same.
pub proof fn law_default_catalog_has_two_names(
    package_name: Seq<char>,
    catalogs: Map<Seq<char>, Map<Seq<char>, Seq<char>>>,
)
    ensures
        catalog_specifier("catalog:"@, package_name, catalogs) == catalog_specifier(
            "catalog:default"@,
            package_name,
            catalogs,
        ),
{
    reveal_strlit("catalog:");
    reveal_strlit("catalog:default");
    reveal_strlit("default");
    assert("catalog:default"@.take(8) =~= "catalog:"@);
    assert(text::tail("catalog:default"@, 8) =~= "default"@);
    assert("catalog:"@.take(8) =~= "catalog:"@);
    assert(text::tail("catalog:"@, 8).len() == 0);
}

proof fn lemma_wishes(manifest: &Json, groups: Seq<DependencyGroup>, wish: Wish)
    ensures
        wishes(manifest, groups).contains(wish) <==> groups.contains(wish.0) && json::entries_of(
            json::child(manifest, manifest_check::group_field(wish.0)),
        ).contains((wish.1, wish.2)),
    decreases groups.len(),
{
    if groups.len() > 0 {
        let rest = groups.drop_last();
        let group = groups.last();
        lemma_wishes(manifest, rest, wish);
        let before = wishes(manifest, rest);
        let entries = json::entries_of(
            json::child(manifest, manifest_check::group_field(group)),
        );
        let here = group_wishes(manifest, group);
        let all = wishes(manifest, groups);
        assert(groups =~= rest.push(group));
        crate::reach::lemma_push_contains(rest, group);
        assert(groups.contains(wish.0) <==> rest.contains(wish.0) || wish.0 == group);
        if wish.0 == group && entries.contains((wish.1, wish.2)) {
            let k = entries.index_of((wish.1, wish.2));
            assert(here[k] == wish);
            assert(all[before.len() + k] == wish);
        }
        if before.contains(wish) {
            assert(all[before.index_of(wish)] == wish);
        }
        if all.contains(wish) {
            let k = all.index_of(wish);
            if k < before.len() {
                assert(before[k] == wish);
            } else {
                assert(here[k - before.len()] == wish);
                assert(entries[k - before.len()] == (wish.1, wish.2));
            }
        }
    }
}

/// What a manifest asks for in some groups is every text in the fields of those groups,
/// with its name, and nothing else.
pub proof fn law_wishes_are_those_of_the_groups(
    entries: Vec<(DependencyGroup, String, String)>,
    manifest: &Json,
    groups: Seq<DependencyGroup>,
    wish: Wish,
)
    requires
        wishes_of(entries@) == wishes(manifest, groups),
    ensures
        wishes_of(entries@).contains(wish) <==> groups.contains(wish.0) && json::entries_of(
            json::child(
                manifest,
                match wish.0 {
                    DependencyGroup::Prod => "dependencies"@,
                    DependencyGroup::Optional => "optionalDependencies"@,
                    DependencyGroup::Dev => "devDependencies"@,
                    DependencyGroup::Peer => "peerDependencies"@,
                },
            ),
        ).contains((wish.1, wish.2)),
{
    lemma_wishes(manifest, groups, wish);
}

/// A specifier that names a catalog stands for what the catalog has for the package, and
/// is refused where it has nothing; one that names none is as it stands.
pub proof fn law_catalog_specifiers(
    found: Result<String, String>,
    catalog: Seq<char>,
    specifier: Seq<char>,
    package_name: Seq<char>,
    catalogs: Map<Seq<char>, Map<Seq<char>, Seq<char>>>,
)
    requires
        text_result(found) == catalog_specifier(specifier, package_name, catalogs),
    ensures
        specifier == "catalog:"@ + catalog ==> {
            let name = if catalog.len() == 0 {
                "default"@
            } else {
                catalog
            };
            &&& catalogs.dom().contains(name) && catalogs[name].dom().contains(package_name)
                ==> found is Ok && found->Ok_0@ == catalogs[name][package_name]
            &&& !catalogs.dom().contains(name) || !catalogs[name].dom().contains(package_name)
                ==> found is Err && found->Err_0@ == "Missing version catalog: "@ + name
                + " on package "@ + package_name
        },
        !text::starts_with(specifier, "catalog:"@) ==> found is Ok && found->Ok_0@ == specifier,
{
    reveal_strlit("catalog:");
    assert(("catalog:"@ + catalog).subrange(0, 8) =~= "catalog:"@);
    assert(text::tail("catalog:"@ + catalog, 8) =~= catalog);
}

/// The catalogs of a workspace: each that it names, with its texts, and the one without a
/// name under `default`; where both have a package, the one that is named so does.
pub proof fn law_catalogs_of_the_workspace(
    catalogs: Map<Seq<char>, Map<Seq<char>, Seq<char>>>,
    workspace: Map<Seq<char>, JsonModel>,
    name: Seq<char>,
    package: Seq<char>,
    specifier: Seq<char>,
)
    requires
        catalogs == workspace_catalogs(JsonModel::Object(workspace)),
    ensures
        ({
            let unnamed = if workspace.dom().contains("catalog"@)
                && workspace["catalog"@] is Object {
                workspace["catalog"@]->Object_0
            } else {
                Map::empty()
            };
            let all = if workspace.dom().contains("catalogs"@)
                && workspace["catalogs"@] is Object {
                workspace["catalogs"@]->Object_0
            } else {
                Map::empty()
            };
            let named = if all.dom().contains(name) && all[name] is Object {
                all[name]->Object_0
            } else {
                Map::empty()
            };
            let in_named = named.dom().contains(package) && named[package] is Text;
            let has = catalogs.dom().contains(name) && catalogs[name].dom().contains(package)
                && catalogs[name][package] == specifier;
            has <==> (in_named && named[package] == JsonModel::Text(specifier) || !in_named && name
                == "default"@ && unnamed.dom().contains(package) && unnamed[package]
                == JsonModel::Text(specifier))
        }),
{
}

/// The file with the hooks is the one that the settings name, seen from the lockfile, or
/// else the one that goes by its usual name there.
pub proof fn law_pnpmfile_is_found(
    path: Seq<char>,
    lockfile_dir: Seq<char>,
    named: Option<Seq<char>>,
    on_windows: bool,
)
    requires
        path == pnpmfile_path(lockfile_dir, named, on_windows),
    ensures
        named is None ==> path == paths::joined(lockfile_dir, ".pnpmfile.cjs"@, on_windows),
        named is Some && paths::is_absolute(named->0, on_windows) ==> path == named->0,
        named is Some && !paths::is_absolute(named->0, on_windows) ==> path == paths::joined(
            lockfile_dir,
            named->0,
            on_windows,
        ),
{
}

} // verus!
