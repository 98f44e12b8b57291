//! Where what a registry tells of packages is kept, and when it is asked for.
use crate::paths;
use crate::slashed;
use crate::text;
use vstd::prelude::*;
use vstd::string::*;

verus! {

/// The directory of a registry.
pub open spec fn namespace(registry: Seq<char>) -> Seq<char> {
    let bare = text::trim_end_char(registry, '/');
    let rest = match text::stripped_prefix(bare, "https://"@) {
        Some(rest) => rest,
        None => match text::stripped_prefix(bare, "http://"@) {
            Some(rest) => rest,
            None => bare,
        },
    };
    text::replace_char(rest, ':', "+"@)
}

/// The directory of a registry.
pub fn registry_namespace(registry: &str) -> (dir: String)
    ensures
        dir@ == namespace(registry@),
{
    let bare = text::trim_end(registry, '/');
    let rest = match text::strip_prefix(bare, "https://") {
        Some(rest) => rest,
        None => match text::strip_prefix(bare, "http://") {
            Some(rest) => rest,
            None => bare,
        },
    };
    text::replace(rest, ':', "+")
}

/// The file of a package.
pub open spec fn cache_file(
    cache_dir: Seq<char>,
    registry: Seq<char>,
    package_name: Seq<char>,
    on_windows: bool,
) -> Seq<
    char,
> {
    paths::joined(
        paths::joined(
            paths::joined(cache_dir, "metadata-v1.3"@, on_windows),
            namespace(registry),
            on_windows,
        ),
        text::replace_char(package_name, '/', "%2f"@) + ".json"@,
        on_windows,
    )
}

/// The file in which what a registry tells of a package is kept.
pub fn package_cache_file(
    cache_dir: &str,
    registry: &str,
    package_name: &str,
    on_windows: bool,
) -> (file: String)
    ensures
        file@ == cache_file(cache_dir@, registry@, package_name@, on_windows),
{
    let dir = paths::join_paths(
        paths::join_paths(cache_dir, "metadata-v1.3", on_windows).as_str(),
        registry_namespace(registry).as_str(),
        on_windows,
    );
    let name = text::replace(package_name, '/', "%2f").concat(".json");
    paths::join_paths(dir.as_str(), name.as_str(), on_windows)
}

/// How what a registry tells of a package is come by.
#[derive(Debug)]
pub enum MetadataStep {
    UseCached,
    Fetch,
    Fail { message: String },
}

/// How what a registry tells of a package is come by.
pub open spec fn is_metadata_step(
    step: MetadataStep,
    package_name: Seq<char>,
    cache_file: Seq<char>,
    is_cached: bool,
    prefer_offline: bool,
    offline: bool,
) -> bool {
    match step {
        MetadataStep::UseCached => is_cached && (prefer_offline || offline),
        MetadataStep::Fetch => !offline && !(is_cached && prefer_offline),
        MetadataStep::Fail { message } => !is_cached && offline && message@
            == "Failed to resolve "@ + package_name + " in package mirror "@ + cache_file,
    }
}

/// How what a registry tells of a package is come by: what is kept is taken
/// where the network is not to be asked, and else the registry is asked.
pub fn metadata_step(
    package_name: &str,
    cache_file: &str,
    is_cached: bool,
    prefer_offline: bool,
    offline: bool,
) -> (step: MetadataStep)
    ensures
        is_metadata_step(step, package_name@, cache_file@, is_cached, prefer_offline, offline),
{
    if (prefer_offline || offline) && is_cached {
        return MetadataStep::UseCached;
    }
    if offline {
        return MetadataStep::Fail {
            message: text::copy("Failed to resolve ").concat(package_name).concat(
                " in package mirror ",
            ).concat(cache_file),
        };
    }
    MetadataStep::Fetch
}

/// What is taken once the registry was asked.
#[derive(Debug)]
pub enum FetchedMetadata {
    UseFresh,
    UseCached { warning: String },
    Fail { message: String },
}

/// What is taken once the registry was asked.
pub open spec fn is_taken(
    taken: FetchedMetadata,
    package_name: Seq<char>,
    failure: Option<Seq<char>>,
    is_cached: bool,
) -> bool {
    match taken {
        FetchedMetadata::UseFresh => failure is None,
        FetchedMetadata::UseCached { warning } => failure is Some && is_cached && warning@
            == "Failed to fetch package metadata from registry for "@ + package_name
            + ", using cached metadata: "@ + failure->0,
        FetchedMetadata::Fail { message } => failure is Some && !is_cached && message@
            == "fetch package metadata from registry: "@ + failure->0,
    }
}

/// What is taken once the registry was asked: its answer, or what is kept where
/// there was none.
pub fn fetched_metadata(package_name: &str, failure: Option<&str>, is_cached: bool) -> (taken:
    FetchedMetadata)
    ensures
        is_taken(taken, package_name@, failure.deep_view(), is_cached),
{
    match failure {
        None => FetchedMetadata::UseFresh,
        Some(error) => if is_cached {
            FetchedMetadata::UseCached {
                warning: text::copy("Failed to fetch package metadata from registry for ").concat(
                    package_name,
                ).concat(", using cached metadata: ").concat(error),
            }
        } else {
            FetchedMetadata::Fail {
                message: text::copy("fetch package metadata from registry: ").concat(error),
            }
        },
    }
}

/// The name of a package as the name of a file.
spec fn encoded(name: Seq<char>) -> Seq<char> {
    text::replace_char(name, '/', "%2f"@)
}

proof fn lemma_encoded_end(name: Seq<char>)
    requires
        !name.contains('%'),
    ensures
        !encoded(name).contains('/'),
        name.len() == 0 <==> encoded(name).len() == 0,
        name.len() > 0 ==> encoded(name).last() == (if name.last() == '/' {
            'f'
        } else {
            name.last()
        }),
        name.len() > 0 ==> encoded(name).last() != '%',
    decreases name.len(),
{
    reveal_strlit("%2f");
    if name.len() > 0 {
        let rest = name.drop_last();
        assert(name[name.len() - 1] == name.last());
        assert forall|i: int| 0 <= i < rest.len() implies rest[i] != '%' by {
            assert(name[i] == rest[i]);
        }
        lemma_encoded_end(rest);
        let end = if name.last() == '/' {
            "%2f"@
        } else {
            seq![name.last()]
        };
        assert(encoded(name) == encoded(rest) + end);
        assert forall|i: int| 0 <= i < encoded(name).len() implies encoded(name)[i] != '/' by {
            if i < encoded(rest).len() {
                assert(encoded(rest).contains(encoded(rest)[i]));
            }
        }
    }
}

proof fn lemma_encoded_apart(a: Seq<char>, b: Seq<char>)
    requires
        !a.contains('%'),
        !b.contains('%'),
        encoded(a) == encoded(b),
    ensures
        a == b,
    decreases a.len(),
{
    lemma_encoded_end(a);
    lemma_encoded_end(b);
    if a.len() == 0 || b.len() == 0 {
        assert(a =~= b);
    } else if (a.last() == '/') == (b.last() == '/') {
        let x = a.drop_last();
        let y = b.drop_last();
        assert forall|i: int| 0 <= i < x.len() implies x[i] != '%' by {
            assert(a[i] == x[i]);
        }
        assert forall|i: int| 0 <= i < y.len() implies y[i] != '%' by {
            assert(b[i] == y[i]);
        }
        reveal_strlit("%2f");
        let n = if a.last() == '/' {
            3int
        } else {
            1int
        };
        assert(encoded(x) =~= encoded(a).take(encoded(a).len() - n));
        assert(encoded(y) =~= encoded(b).take(encoded(b).len() - n));
        lemma_encoded_apart(x, y);
        assert(a =~= x.push(a.last()));
        assert(b =~= y.push(b.last()));
    } else if a.last() == '/' {
        lemma_slash_is_no_letter(a, b);
    } else {
        lemma_slash_is_no_letter(b, a);
    }
}

/// What a slash is encoded by does not end any other name.
proof fn lemma_slash_is_no_letter(a: Seq<char>, b: Seq<char>)
    requires
        a.len() > 0,
        a.last() == '/',
        b.len() > 0,
        b.last() != '/',
        !b.contains('%'),
    ensures
        encoded(a) != encoded(b),
{
    reveal_strlit("%2f");
    if encoded(a) == encoded(b) {
        let e = encoded(b);
        let start = encoded(a.drop_last());
        assert(e == start + "%2f"@);
        let y = b.drop_last();
        assert forall|i: int| 0 <= i < y.len() implies y[i] != '%' by {
            assert(b[i] == y[i]);
        }
        lemma_encoded_end(y);
        assert(e == encoded(y) + seq![b.last()]);
        assert(encoded(y) =~= e.take(e.len() - 1));
        assert(encoded(y) =~= start + seq!['%', '2']) by {
            assert(e.len() == start.len() + 3);
            assert(e[start.len() as int] == '%');
            assert(e[start.len() as int + 1] == '2');
        }
        assert(encoded(y).last() == '2');
        assert(y.last() == '2');
        let z = y.drop_last();
        assert forall|i: int| 0 <= i < z.len() implies z[i] != '%' by {
            assert(y[i] == z[i]);
        }
        lemma_encoded_end(z);
        assert(encoded(y) == encoded(z) + seq![y.last()]);
        assert(encoded(z) =~= encoded(y).take(encoded(y).len() - 1));
        assert(encoded(z) =~= start + seq!['%']) by {
            assert(encoded(y)[start.len() as int] == '%');
        }
        assert(encoded(z).last() == '%');
    }
}

/// A name has no part of a path of Windows in it but `/`.
pub open spec fn is_plain_on_windows(name: Seq<char>) -> bool {
    !name.contains(':') && !name.contains('\\')
}

proof fn lemma_encoded_keeps_out(name: Seq<char>, c: char)
    requires
        !name.contains(c),
        c == ':' || c == '\\',
    ensures
        !encoded(name).contains(c),
    decreases name.len(),
{
    reveal_strlit("%2f");
    if name.len() > 0 {
        let rest = name.drop_last();
        assert forall|i: int| 0 <= i < rest.len() implies rest[i] != c by {
            assert(name[i] == rest[i]);
        }
        lemma_encoded_keeps_out(rest, c);
        let end = if name.last() == '/' {
            "%2f"@
        } else {
            seq![name.last()]
        };
        assert(encoded(name) == encoded(rest) + end);
        assert(name[name.len() - 1] != c);
        assert forall|i: int| 0 <= i < encoded(name).len() implies encoded(name)[i] != c by {
            if i < encoded(rest).len() {
                assert(encoded(rest).contains(encoded(rest)[i]));
            }
        }
    }
}

/// The name of a file lies in a directory.
proof fn lemma_file_in_dir(dir: Seq<char>, name: Seq<char>, on_windows: bool)
    requires
        !name.contains('%'),
        on_windows ==> is_plain_on_windows(name),
    ensures
        paths::joined(dir, encoded(name) + ".json"@, on_windows) == dir_with_end(dir, on_windows)
            + (encoded(name) + ".json"@),
{
    reveal_strlit(".json");
    lemma_encoded_end(name);
    let file = encoded(name) + ".json"@;
    if encoded(name).len() > 0 {
        assert(encoded(name).contains(encoded(name)[0]));
    }
    if on_windows {
        lemma_encoded_keeps_out(name, ':');
        lemma_encoded_keeps_out(name, '\\');
        if encoded(name).len() > 1 {
            assert(encoded(name).contains(encoded(name)[1]));
        }
        assert(file[0] != '/' && file[0] != '\\');
        assert(file[1] != ':');
        assert(paths::prefix_len(file) == 0);
        lemma_file_is_one_name(name);
        let at = paths::names(dir, true);
        let parts = paths::names(file, true);
        assert(parts.drop_last() =~= Seq::<Seq<char>>::empty());
        assert(paths::led_to(at, parts.drop_last()) == at);
        assert(file != seq!['.', '.']) by {
            assert(file.len() >= 5);
        }
        assert(paths::led_to(at, parts) == at.push(file));
        assert(at.push(file).drop_last() =~= at);
    }
    assert(paths::joined(dir, file, on_windows) =~= dir_with_end(dir, on_windows) + file);
}

proof fn lemma_file_is_one_name(name: Seq<char>)
    requires
        !name.contains('%'),
        is_plain_on_windows(name),
        paths::prefix_len(encoded(name) + ".json"@) == 0,
    ensures
        paths::names(encoded(name) + ".json"@, true) == seq![encoded(name) + ".json"@],
{
    reveal_strlit(".json");
    let file = encoded(name) + ".json"@;
    lemma_encoded_end(name);
    lemma_encoded_keeps_out(name, '\\');
    assert forall|i: int| 0 <= i < file.len() implies file[i] != '/' && file[i] != '\\' by {
        if i < encoded(name).len() {
            assert(encoded(name).contains(encoded(name)[i]));
        }
    }
    assert(paths::body(file) =~= file);
    text::lemma_first_index_is(file, '/', file.len() as int);
    assert(text::split(file, '/') =~= seq![file]);
    let pieces = seq![file];
    assert(slashed::is_name(file)) by {
        assert(file.len() >= 5);
    }
    assert(pieces.drop_last() =~= Seq::<Seq<char>>::empty());
    assert(slashed::names(pieces.drop_last()) =~= Seq::<Seq<char>>::empty());
    assert(pieces.last() == file);
    assert(slashed::names(pieces) == slashed::names(pieces.drop_last()).push(file));
    assert(slashed::names(pieces) =~= pieces);
}

/// A directory with what parts it from what lies in it.
spec fn dir_with_end(dir: Seq<char>, on_windows: bool) -> Seq<char> {
    if on_windows && paths::is_verbatim(dir) {
        let at = paths::names(dir, true);
        dir.take(paths::prefix_len(dir)) + seq!['\\'] + (if at.len() == 0 {
            Seq::empty()
        } else {
            text::join(at, seq!['\\']) + seq!['\\']
        })
    } else if dir.len() == 0 || dir.last() == '/' {
        dir
    } else if on_windows && (dir.last() == '\\' || paths::has_drive(dir, 0) && dir.len() == 2) {
        dir
    } else if on_windows {
        dir.push('\\')
    } else {
        dir.push('/')
    }
}

/// What is kept of one package is never taken for another one: packages of one
/// registry whose names hold no `%`, and on Windows no `:` and no `\`, are kept in
/// different files.
pub proof fn law_packages_are_kept_apart(
    cache_dir: Seq<char>,
    registry: Seq<char>,
    a: Seq<char>,
    b: Seq<char>,
    on_windows: bool,
)
    requires
        !a.contains('%'),
        !b.contains('%'),
        on_windows ==> is_plain_on_windows(a) && is_plain_on_windows(b),
        cache_file(cache_dir, registry, a, on_windows) == cache_file(
            cache_dir,
            registry,
            b,
            on_windows,
        ),
    ensures
        a == b,
{
    reveal_strlit(".json");
    let dir = paths::joined(
        paths::joined(cache_dir, "metadata-v1.3"@, on_windows),
        namespace(registry),
        on_windows,
    );
    let before = dir_with_end(dir, on_windows);
    let x = encoded(a) + ".json"@;
    let y = encoded(b) + ".json"@;
    lemma_file_in_dir(dir, a, on_windows);
    lemma_file_in_dir(dir, b, on_windows);
    assert(x =~= (before + x).skip(before.len() as int));
    assert(y =~= (before + y).skip(before.len() as int));
    assert(encoded(a) =~= x.take(x.len() - 5));
    assert(encoded(b) =~= y.take(y.len() - 5));
    lemma_encoded_apart(a, b);
}

/// Without the network nothing is fetched: what is kept is taken, or it fails. With it,
/// what is kept is taken only where that is preferred.
pub proof fn law_offline_means_no_fetching(
    step: MetadataStep,
    package_name: Seq<char>,
    cache_file: Seq<char>,
    is_cached: bool,
    prefer_offline: bool,
    offline: bool,
)
    requires
        is_metadata_step(step, package_name, cache_file, is_cached, prefer_offline, offline),
    ensures
        offline ==> !(step is Fetch),
        offline && is_cached ==> step is UseCached,
        offline && !is_cached ==> step is Fail,
        !offline && !prefer_offline ==> step is Fetch,
        !offline && prefer_offline ==> (if is_cached {
            step is UseCached
        } else {
            step is Fetch
        }),
{
}

/// What the registry answers is taken; where it does not answer, what is kept is, with a
/// warning, and without that it fails.
pub proof fn law_failed_fetch_falls_back(
    taken: FetchedMetadata,
    package_name: Seq<char>,
    failure: Option<Seq<char>>,
    is_cached: bool,
)
    requires
        is_taken(taken, package_name, failure, is_cached),
    ensures
        failure is None <==> taken is UseFresh,
        failure is Some && is_cached <==> taken is UseCached,
        failure is Some && !is_cached <==> taken is Fail,
{
}

} // verus!
