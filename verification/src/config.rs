//! The configuration itself: layers in the order of their precedence, and
//! lookups that the first layer with a value decides.

use vstd::prelude::*;
use crate::coerce::Snapshot;
use crate::document::{detected_kind, document_of, failed_as};
use crate::error::Error;
use crate::loaders::{
    build_layer, cli_failure, cli_layer, entry_views, env_entries, env_failure, env_layer,
    flag_entries, layer, layer_failure, read_env, read_flags, CliLoader, EnvLoader, Loader,
};
use crate::schema::{Declared, IntoDefault, Schema, Typed};
use crate::template::{binding, bound, expand, expand_text, find_binding, Sources, CEILING};
use crate::text::{append_str, chars_of, string_of, views};
use crate::tree::{assign, empty_object, lookup, merge_trees, segments, Tree};
use crate::value::{Table, Value};

verus! {

/// The place of `name` below the directory `dir`.
pub open spec fn in_dir(dir: Seq<char>, name: Seq<char>) -> Seq<char> {
    if dir.len() > 0 && dir.last() == '/' {
        dir + name
    } else {
        dir.push('/') + name
    }
}

/// Where the last `/` of `s` stands; -1 where it has none.
pub open spec fn last_slash(s: Seq<char>) -> int
    decreases s.len(),
{
    if s.len() == 0 {
        -1
    } else if s.last() == '/' {
        s.len() - 1
    } else {
        last_slash(s.drop_last())
    }
}

/// The name of the run-commands file of an application: `.{app}rc`.
pub open spec fn rc_name(app: Seq<char>) -> Seq<char> {
    "."@ + app + "rc"@
}

/// The run-commands files from `dir` upward: in `dir`, in each directory
/// above it, and at last in the root.
pub open spec fn search_up(dir: Seq<char>, app: Seq<char>) -> Seq<Seq<char>>
    decreases dir.len(),
{
    if dir.len() == 0 {
        seq!["/"@ + rc_name(app)]
    } else if dir.last() == '/' {
        search_up(dir.drop_last(), app)
    } else {
        let cut = last_slash(dir);
        let above = if 0 <= cut < dir.len() {
            dir.take(cut)
        } else {
            Seq::empty()
        };
        seq![in_dir(dir, rc_name(app))] + search_up(above, app)
    }
}

/// The places below the home directory, in the order of their precedence.
pub open spec fn home_candidates(home: Seq<char>, app: Seq<char>) -> Seq<Seq<char>> {
    seq![
        in_dir(home, rc_name(app)),
        in_dir(home, "."@ + app + "/config"@),
        in_dir(home, ".config/"@ + app),
        in_dir(home, ".config/"@ + app + "/config"@),
    ]
}

/// The places that belong to the whole system, in the order of their
/// precedence.
pub open spec fn system_candidates(app: Seq<char>) -> Seq<Seq<char>> {
    seq![
        "/etc/"@ + app + "rc"@,
        "/etc/"@ + app + "/config"@,
        "/usr/local/etc/"@ + app + "rc"@,
        "/usr/local/etc/"@ + app + "/config"@,
    ]
}

/// Every place where a configuration file of the application is looked
/// for, the place of the highest precedence first: below the home
/// directory, in the system's directories, then from the working directory
/// upward. The walk upward passes over a place that is listed already, so
/// no place is looked at twice.
pub open spec fn candidates(app: Seq<char>, home: Option<Seq<char>>, cwd: Seq<char>) -> Seq<
    Seq<char>,
> {
    let fixed = (match home {
        Some(h) => home_candidates(h, app),
        None => Seq::empty(),
    }) + system_candidates(app);
    let walk = search_up(cwd, app);
    appended(fixed, walk, walk.len() as int)
}

/// `listed` followed by those of the first `n` of `extra` that are not
/// listed yet, each once.
pub open spec fn appended(listed: Seq<Seq<char>>, extra: Seq<Seq<char>>, n: int) -> Seq<Seq<char>>
    decreases n,
{
    if n <= 0 || n > extra.len() {
        listed
    } else {
        let done = appended(listed, extra, n - 1);
        if done.contains(extra[n - 1]) {
            done
        } else {
            done.push(extra[n - 1])
        }
    }
}

/// Whether `place` is among `places`.
fn listed(places: &Vec<String>, place: &String) -> (r: bool)
    ensures
        r == views(places@).contains(place@),
{
    let mut i: usize = 0;
    while i < places.len()
        invariant
            i <= places@.len(),
            forall|j: int| 0 <= j < i ==> views(places@)[j] != place@,
        decreases places@.len() - i,
    {
        if places[i] == *place {
            assert(views(places@)[i as int] == place@);
            return true;
        }
        i += 1;
    }
    false
}

/// `a`, `b` and `c` one after the other.
fn concat(a: &str, b: &str, c: &str) -> (r: String)
    ensures
        r@ == a@ + b@ + c@,
{
    let mut out: Vec<char> = Vec::new();
    append_str(&mut out, a);
    append_str(&mut out, b);
    append_str(&mut out, c);
    assert(out@ == a@ + b@ + c@) by {
        assert(Seq::<char>::empty() + a@ == a@);
    }
    assert(out@.subrange(0, out@.len() as int) == out@);
    string_of(&out, 0, out.len())
}

/// The place of `name` below the directory `dir[..len]`.
fn place_in(dir: &Vec<char>, len: usize, name: &str) -> (r: String)
    requires
        len <= dir@.len(),
    ensures
        r@ == in_dir(dir@.take(len as int), name@),
{
    let mut out: Vec<char> = Vec::new();
    let mut i: usize = 0;
    while i < len
        invariant
            i <= len <= dir@.len(),
            out@ == dir@.take(i as int),
        decreases len - i,
    {
        out.push(dir[i]);
        assert(dir@.take(i + 1) == dir@.take(i as int).push(dir@[i as int]));
        i += 1;
    }
    if !(len > 0 && dir[len - 1] == '/') {
        out.push('/');
    }
    append_str(&mut out, name);
    assert(out@.subrange(0, out@.len() as int) == out@);
    string_of(&out, 0, out.len())
}

/// Where the last `/` of `v[..len]` stands.
fn find_last_slash(v: &Vec<char>, len: usize) -> (r: Option<usize>)
    requires
        len <= v@.len(),
    ensures
        match r {
            Some(i) => i < len && last_slash(v@.take(len as int)) == i,
            None => last_slash(v@.take(len as int)) == -1,
        },
{
    let mut i: usize = len;
    while i > 0
        invariant
            i <= len <= v@.len(),
            last_slash(v@.take(len as int)) == last_slash(v@.take(i as int)),
        decreases i,
    {
        proof {
            let here = v@.take(i as int);
            assert(here.last() == v@[i - 1]);
            assert(here.drop_last() == v@.take(i - 1));
        }
        if v[i - 1] == '/' {
            return Some(i - 1);
        }
        i -= 1;
    }
    None
}

/// Every place where a configuration file of `application_name` is looked
/// for, the place of the highest precedence first.
pub fn candidate_paths(application_name: &str, home: &Option<String>, cwd: &str) -> (paths: Vec<
    String,
>)
    ensures
        views(paths@) == candidates(
            application_name@,
            match home {
                Some(h) => Some(h@),
                None => None,
            },
            cwd@,
        ),
{
    let app = application_name;
    let rc = concat(".", app, "rc");
    let mut paths: Vec<String> = Vec::new();
    match home {
        Some(h) => {
            let dir = chars_of(h.as_str());
            assert(dir@.take(dir@.len() as int) == dir@);
            paths.push(place_in(&dir, dir.len(), rc.as_str()));
            paths.push(place_in(&dir, dir.len(), concat(".", app, "/config").as_str()));
            paths.push(place_in(&dir, dir.len(), concat(".config/", app, "").as_str()));
            paths.push(place_in(&dir, dir.len(), concat(".config/", app, "/config").as_str()));
            assert(".config/"@ + app@ + ""@ == ".config/"@ + app@) by {
                reveal_strlit("");
            }
            assert(views(paths@) =~= home_candidates(h@, app@));
        },
        None => {
            assert(views(paths@) =~= Seq::<Seq<char>>::empty());
        },
    }
    let ghost at_home = views(paths@);
    paths.push(concat("/etc/", app, "rc"));
    paths.push(concat("/etc/", app, "/config"));
    paths.push(concat("/usr/local/etc/", app, "rc"));
    paths.push(concat("/usr/local/etc/", app, "/config"));
    assert(views(paths@) =~= at_home + system_candidates(app@));
    let ghost fixed = views(paths@);
    let dir = chars_of(cwd);
    let mut walk: Vec<String> = Vec::new();
    let mut len: usize = dir.len();
    assert(dir@.take(len as int) == dir@);
    assert(views(walk@) =~= Seq::<Seq<char>>::empty());
    assert(search_up(cwd@, app@) == views(walk@) + search_up(dir@.take(len as int), app@));
    while len > 0
        invariant
            len <= dir@.len(),
            rc@ == rc_name(app@),
            search_up(cwd@, app@) == views(walk@) + search_up(dir@.take(len as int), app@),
        decreases len,
    {
        let ghost here = dir@.take(len as int);
        proof {
            assert(here.last() == dir@[len - 1]);
            assert(here.drop_last() == dir@.take(len - 1));
        }
        if dir[len - 1] == '/' {
            len -= 1;
        } else {
            let ghost before = views(walk@);
            let place = place_in(&dir, len, rc.as_str());
            walk.push(place);
            let cut = find_last_slash(&dir, len);
            let next = match cut {
                Some(i) => i,
                None => 0,
            };
            proof {
                let above = if 0 <= last_slash(here) < here.len() {
                    here.take(last_slash(here))
                } else {
                    Seq::<char>::empty()
                };
                assert(above == dir@.take(next as int));
                assert(views(walk@) == before.push(place@));
                assert(before + (seq![place@] + search_up(above, app@)) == before.push(place@)
                    + search_up(above, app@));
            }
            len = next;
        }
    }
    let ghost before = views(walk@);
    let root = concat("/", rc.as_str(), "");
    proof {
        reveal_strlit("");
        assert("/"@ + rc@ + ""@ == "/"@ + rc@);
        assert(dir@.take(0).len() == 0);
    }
    walk.push(root);
    assert(views(walk@) == before.push(root@));
    assert(before + seq![root@] == before.push(root@));
    let ghost upward = views(walk@);
    let mut i: usize = 0;
    while i < walk.len()
        invariant
            i <= walk@.len(),
            upward == views(walk@),
            views(paths@) == appended(fixed, upward, i as int),
        decreases walk@.len() - i,
    {
        assert(upward[i as int] == walk@[i as int]@);
        if !listed(&paths, &walk[i]) {
            let ghost so_far = views(paths@);
            paths.push(walk[i].clone());
            assert(views(paths@) =~= so_far.push(walk@[i as int]@));
        }
        i += 1;
    }
    paths
}

/// The documents among the first `n` of `paths` that `sources` holds, each
/// with its path and its tree, or nothing where one of them is malformed.
pub open spec fn file_layers(paths: Seq<Seq<char>>, n: int, sources: Sources) -> Option<
    Seq<(Seq<char>, Tree)>,
>
    decreases n,
{
    if n <= 0 || n > paths.len() {
        Some(Seq::empty())
    } else {
        match file_layers(paths, n - 1, sources) {
            Some(done) => {
                let path = paths[n - 1];
                if bound(sources.files@, path) {
                    match document_of(binding(sources.files@, path)) {
                        Some(t) => Some(done.push((path, t))),
                        None => None,
                    }
                } else {
                    Some(done)
                }
            },
            None => None,
        }
    }
}

/// Whether `e` is the failure of the first of the first `n` of `paths`
/// whose document is malformed: it fails as a document of its format.
pub open spec fn files_failure(paths: Seq<Seq<char>>, n: int, sources: Sources, e: Error) -> bool
    decreases n,
{
    if n <= 0 || n > paths.len() {
        false
    } else if file_layers(paths, n - 1, sources) is None {
        files_failure(paths, n - 1, sources, e)
    } else {
        let text = binding(sources.files@, paths[n - 1]);
        &&& bound(sources.files@, paths[n - 1])
        &&& document_of(text) is None
        &&& failed_as(e, detected_kind(text))
    }
}

/// Once a part of the paths gives nothing, no longer part gives layers, and
/// the failure stays the same.
proof fn lemma_file_layers_none(paths: Seq<Seq<char>>, n: int, m: int, sources: Sources, e: Error)
    requires
        0 <= n <= m <= paths.len(),
        file_layers(paths, n, sources) is None,
    ensures
        file_layers(paths, m, sources) is None,
        files_failure(paths, n, sources, e) ==> files_failure(paths, m, sources, e),
    decreases m - n,
{
    if n < m {
        lemma_file_layers_none(paths, n, m - 1, sources, e);
    }
}

/// Whether `e` is the failure of the first malformed configuration file of
/// the application.
pub open spec fn config_failure(app: Seq<char>, snapshot: Snapshot, e: Error) -> bool {
    let paths = candidates(
        app,
        match snapshot.home {
            Some(h) => Some(h@),
            None => None,
        },
        snapshot.cwd@,
    );
    files_failure(paths, paths.len() as int, snapshot.sources, e)
}

/// The configuration files of an application that a snapshot holds.
pub open spec fn config_files(app: Seq<char>, snapshot: Snapshot) -> Option<Seq<(Seq<char>, Tree)>> {
    let paths = candidates(
        app,
        match snapshot.home {
            Some(h) => Some(h@),
            None => None,
        },
        snapshot.cwd@,
    );
    file_layers(paths, paths.len() as int, snapshot.sources)
}

/// The paths and the trees of files that were read.
pub open spec fn file_views(files: Seq<(String, Value)>) -> Seq<(Seq<char>, Tree)> {
    Seq::new(files.len(), |i: int| (files[i].0@, files[i].1@))
}

/// What was gathered from the sources when no schema is at hand.
pub struct Inner {
    pub config_files: Vec<(String, Value)>,
    pub env_vars: Value,
    pub cli_flags: Value,
}

/// The tree of the flags of a snapshot that have a value, each read by its
/// tags and stored at its path.
pub open spec fn gathered_flags(snapshot: Snapshot) -> Option<Tree> {
    let entries = flag_entries(views(snapshot.args@), snapshot.args@.len() as int, None, true);
    layer(entries, entries.len() as int, None, false, snapshot)
}

/// Whether `e` is the failure of the first flag with a value whose token
/// cannot be read by its tags.
pub open spec fn flags_failure(snapshot: Snapshot, e: Error) -> bool {
    let entries = flag_entries(views(snapshot.args@), snapshot.args@.len() as int, None, true);
    layer_failure(entries, entries.len() as int, None, false, snapshot, e)
}

/// The tree of the variables of an application in a snapshot, each read by
/// its tags and stored at its path.
pub open spec fn gathered_env(app: Seq<char>, snapshot: Snapshot) -> Option<Tree> {
    let entries = env_entries(app, snapshot.sources.env@, snapshot.sources.env@.len() as int);
    layer(entries, entries.len() as int, None, false, snapshot)
}

/// Whether `e` is the failure of the first variable of the application whose
/// value cannot be read by its tags.
pub open spec fn vars_failure(app: Seq<char>, snapshot: Snapshot, e: Error) -> bool {
    let entries = env_entries(app, snapshot.sources.env@, snapshot.sources.env@.len() as int);
    layer_failure(entries, entries.len() as int, None, false, snapshot, e)
}

/// Whether `e` is the failure of gathering: that of the files where a file
/// is malformed, else that of the variables where one cannot be read, else
/// that of the flags. There is none where everything can be read.
pub open spec fn gathering_failure(app: Seq<char>, snapshot: Snapshot, e: Error) -> bool {
    if config_files(app, snapshot) is None {
        config_failure(app, snapshot, e)
    } else if gathered_env(app, snapshot) is None {
        vars_failure(app, snapshot, e)
    } else {
        gathered_flags(snapshot) is None && flags_failure(snapshot, e)
    }
}

impl Inner {
    /// Gathers the files, the variables and the flags of an application. A
    /// failure of any of them fails the whole, with that failure.
    pub fn load(application_name: &str, snapshot: &Snapshot) -> (r: Result<Inner, Error>)
        ensures
            match r {
                Ok(inner) => {
                    &&& config_files(application_name@, *snapshot) == Some(
                        file_views(inner.config_files@),
                    )
                    &&& gathered_env(application_name@, *snapshot) == Some(inner.env_vars@)
                    &&& gathered_flags(*snapshot) == Some(inner.cli_flags@)
                },
                Err(e) => gathering_failure(application_name@, *snapshot, e),
            },
    {
        let config_files = match Inner::gather_config_files(application_name, snapshot) {
            Ok(f) => f,
            Err(e) => {
                return Err(e);
            },
        };
        let env_vars = match Inner::gather_env_vars(application_name, snapshot) {
            Ok(v) => v,
            Err(e) => {
                return Err(e);
            },
        };
        let cli_flags = match Inner::gather_cli_flags(application_name, snapshot) {
            Ok(v) => v,
            Err(e) => {
                return Err(e);
            },
        };
        Ok(Inner { config_files, env_vars, cli_flags })
    }

    /// Reads every configuration file of the application that the snapshot
    /// holds, in the order of the places where files are looked for. One
    /// malformed file fails the whole.
    pub fn gather_config_files(application_name: &str, snapshot: &Snapshot) -> (r: Result<
        Vec<(String, Value)>,
        Error,
    >)
        ensures
            match r {
                Ok(files) => config_files(application_name@, *snapshot) == Some(
                    file_views(files@),
                ),
                Err(e) => config_files(application_name@, *snapshot) is None && config_failure(
                    application_name@,
                    *snapshot,
                    e,
                ),
            },
    {
        let paths = candidate_paths(application_name, &snapshot.home, snapshot.cwd.as_str());
        let ghost all = views(paths@);
        let mut files: Vec<(String, Value)> = Vec::new();
        let mut i: usize = 0;
        assert(file_views(files@) =~= Seq::empty());
        while i < paths.len()
            invariant
                i <= paths@.len(),
                all == views(paths@),
                all == candidates(
                    application_name@,
                    match snapshot.home {
                        Some(h) => Some(h@),
                        None => None,
                    },
                    snapshot.cwd@,
                ),
                file_layers(all, i as int, snapshot.sources) == Some(file_views(files@)),
            decreases paths@.len() - i,
        {
            assert(all[i as int] == paths@[i as int]@);
            match find_binding(&snapshot.sources.files, &paths[i]) {
                Some(contents) => {
                    match Value::from_src(contents.as_str()) {
                        Ok(tree) => {
                            let ghost before = files@;
                            let entry = (paths[i].clone(), tree);
                            files.push(entry);
                            assert(file_views(files@) =~= file_views(before).push(
                                (entry.0@, entry.1@),
                            ));
                        },
                        Err(e) => {
                            proof {
                                assert(file_layers(all, i + 1, snapshot.sources) is None);
                                assert(files_failure(all, i + 1, snapshot.sources, e));
                                lemma_file_layers_none(
                                    all,
                                    i + 1,
                                    all.len() as int,
                                    snapshot.sources,
                                    e,
                                );
                            }
                            return Err(e);
                        },
                    }
                },
                None => {},
            }
            i += 1;
        }
        Ok(files)
    }

    /// The tree of the variables of the application, each value read by its
    /// tags and stored at the path that its name gives.
    pub fn gather_env_vars(application_name: &str, snapshot: &Snapshot) -> (r: Result<Value, Error>)
        ensures
            match r {
                Ok(v) => gathered_env(application_name@, *snapshot) == Some(v@),
                Err(e) => gathered_env(application_name@, *snapshot) is None && vars_failure(
                    application_name@,
                    *snapshot,
                    e,
                ),
            },
    {
        let entries = read_env(application_name, &snapshot.sources.env);
        build_layer(&entries, None, false, snapshot)
    }

    /// The tree of the flags that have a value, each value read by its tags
    /// and stored at the path that the flag names.
    pub fn gather_cli_flags(application_name: &str, snapshot: &Snapshot) -> (r: Result<
        Value,
        Error,
    >)
        ensures
            match r {
                Ok(v) => gathered_flags(*snapshot) == Some(v@),
                Err(e) => gathered_flags(*snapshot) is None && flags_failure(*snapshot, e),
            },
    {
        let entries = read_flags(&snapshot.args, &None, true);
        build_layer(&entries, None, false, snapshot)
    }
}

/// The trees of `files[from..]` merged into one: the file of the lowest
/// precedence first, each file of a higher precedence merged over it.
pub open spec fn merged_from(files: Seq<(Seq<char>, Tree)>, from: int) -> Tree
    decreases files.len() - from,
{
    if from < 0 || from >= files.len() {
        empty_object()
    } else {
        merge_trees(merged_from(files, from + 1), files[from].1)
    }
}

/// Reads the configuration files on disk.
pub struct DiskLoader {}

impl DiskLoader {
    pub fn new() -> (r: DiskLoader) {
        DiskLoader {  }
    }

    /// The configuration files of `application_name` that `snapshot` holds,
    /// merged into one tree in which a file of a higher precedence decides.
    pub fn read(&self, application_name: &str, snapshot: &Snapshot) -> (r: Result<Value, Error>)
        ensures
            match r {
                Ok(v) => config_files(application_name@, *snapshot) is Some && v@ == merged_from(
                    config_files(application_name@, *snapshot)->0,
                    0,
                ),
                Err(e) => config_files(application_name@, *snapshot) is None && config_failure(
                    application_name@,
                    *snapshot,
                    e,
                ),
            },
    {
        let files = match Inner::gather_config_files(application_name, snapshot) {
            Ok(f) => f,
            Err(e) => {
                return Err(e);
            },
        };
        let ghost all = file_views(files@);
        let mut rest = files;
        let mut root = Value::Object(Table::new());
        while rest.len() > 0
            invariant
                rest@.len() <= all.len(),
                forall|j: int| 0 <= j < rest@.len() ==> (#[trigger] rest@[j]).1@ == all[j].1,
                root@ == merged_from(all, rest@.len() as int),
            decreases rest@.len(),
        {
            let ghost n = rest@.len();
            let entry = rest.pop();
            match entry {
                Some(e) => {
                    assert(e.1@ == all[n - 1].1);
                    root.merge(e.1);
                },
                None => {},
            }
        }
        Ok(root)
    }
}

impl Loader for DiskLoader {
    /// The configuration files of `application_name` that `snapshot` holds,
    /// merged into one tree, as `read` gives it; the schema plays no part.
    /// The loader itself stays as it is.
    fn collect(&mut self, application_name: &str, schema: &Schema, snapshot: &Snapshot) -> (r:
        Result<Value, Error>)
        ensures
            *final(self) == *old(self),
            match r {
                Ok(v) => config_files(application_name@, *snapshot) is Some && v@ == merged_from(
                    config_files(application_name@, *snapshot)->0,
                    0,
                ),
                Err(e) => config_files(application_name@, *snapshot) is None && config_failure(
                    application_name@,
                    *snapshot,
                    e,
                ),
            },
    {
        self.read(application_name, snapshot)
    }
}

/// One tree of a configuration, with the name of the source it came from.
pub struct Layer {
    pub source: String,
    pub tree: Value,
}

/// The trees of layers, in their order.
pub open spec fn layer_trees(layers: Seq<Layer>) -> Seq<Tree> {
    Seq::new(layers.len(), |i: int| layers[i].tree@)
}

/// The names of the sources of layers, in their order.
pub open spec fn layer_sources(layers: Seq<Layer>) -> Seq<Seq<char>> {
    Seq::new(layers.len(), |i: int| layers[i].source@)
}

/// What the first of `trees` that has something at `segs` has there;
/// `Absent` where none has.
pub open spec fn resolved(trees: Seq<Tree>, segs: Seq<Seq<char>>) -> Tree
    decreases trees.len(),
{
    if trees.len() == 0 {
        Tree::Absent
    } else if lookup(trees[0], segs) is Absent {
        resolved(trees.drop_first(), segs)
    } else {
        lookup(trees[0], segs)
    }
}

/// Looks `path` up in the layers, the layer of the highest precedence
/// first: the first layer that has something there decides.
pub fn resolve<'a>(layers: &'a Vec<Layer>, path: &str) -> (r: &'a Value)
    ensures
        r@ == resolved(layer_trees(layers@), segments(path@)),
{
    let mut i: usize = 0;
    assert(layer_trees(layers@).skip(0) == layer_trees(layers@));
    while i < layers.len()
        invariant
            i <= layers@.len(),
            resolved(layer_trees(layers@), segments(path@)) == resolved(
                layer_trees(layers@).skip(i as int),
                segments(path@),
            ),
        decreases layers@.len() - i,
    {
        proof {
            let rest = layer_trees(layers@).skip(i as int);
            assert(rest[0] == layers@[i as int].tree@);
            assert(rest.drop_first() == layer_trees(layers@).skip(i + 1));
        }
        let found = layers[i].tree.get_path(path);
        if !found.is_none() {
            return found;
        }
        i += 1;
    }
    &Value::Absent
}

/// What the first of `layers[from..to]` that came from `source` has at
/// `segs`; `Absent` where none came from there.
pub open spec fn from_source(
    layers: Seq<Layer>,
    from: int,
    to: int,
    source: Seq<char>,
    segs: Seq<Seq<char>>,
) -> Tree
    decreases to - from,
{
    if from < 0 || from >= to || to > layers.len() {
        Tree::Absent
    } else if layers[from].source@ == source {
        lookup(layers[from].tree@, segs)
    } else {
        from_source(layers, from + 1, to, source, segs)
    }
}

/// What a lookup hands out for a node: a string is expanded first.
pub open spec fn presented(t: Tree, sources: Sources) -> Tree {
    match t {
        Tree::Text(s) => Tree::Text(expand(s, sources.env@, sources.files@, CEILING as nat)),
        _ => t,
    }
}

/// Whether a lookup that resolved to `t` hands out a `T`: `t` is not absent
/// and, expanded where it is a string, can be read as a `T`.
pub open spec fn found_as<T: Typed>(t: Tree, sources: Sources) -> bool {
    !(t is Absent) && T::accepts(presented(t, sources))
}

/// The trees of a configuration that was loaded, the tree of the highest
/// precedence first: the flags, the overrides (empty after loading), the
/// environment, the files in the order of their places, and the defaults of
/// the schema. Nothing where a source cannot be read.
pub open spec fn loaded_trees(app: Seq<char>, schema: Schema, snapshot: Snapshot) -> Option<
    Seq<Tree>,
> {
    match (
        cli_layer(None, schema@, snapshot),
        env_layer(app, schema@, snapshot),
        config_files(app, snapshot),
    ) {
        (Some(flags), Some(env), Some(files)) => Some(
            seq![flags, empty_object(), env] + Seq::new(files.len(), |i: int| files[i].1)
                + seq![schema.defaults()],
        ),
        _ => None,
    }
}

/// The names of the sources of a configuration that was loaded, in the
/// order of its trees: `cli`, `overrides`, `env`, the path of each file,
/// and `defaults`.
pub open spec fn loaded_sources(app: Seq<char>, snapshot: Snapshot) -> Option<Seq<Seq<char>>> {
    match config_files(app, snapshot) {
        Some(files) => Some(
            seq!["cli"@, "overrides"@, "env"@] + Seq::new(files.len(), |i: int| files[i].0)
                + seq!["defaults"@],
        ),
        None => None,
    }
}

/// Whether `e` is the failure of loading: that of the flags where a flag
/// cannot be read, else that of the environment where a variable cannot be
/// read, else that of the files where one is malformed.
pub open spec fn loading_failure(app: Seq<char>, schema: Schema, snapshot: Snapshot, e: Error) -> bool {
    if cli_layer(None, schema@, snapshot) is None {
        cli_failure(None, schema@, snapshot, e)
    } else if env_layer(app, schema@, snapshot) is None {
        env_failure(app, schema@, snapshot, e)
    } else {
        config_files(app, snapshot) is None && config_failure(app, snapshot, e)
    }
}

/// The layered configuration of an application.
///
/// The layers stand in the order of their precedence: command-line flags,
/// the overrides made with `set`, environment variables, the files in the
/// order of their places, and at last the defaults of the schema.
pub struct Config {
    application_name: String,
    schema: Schema,
    layers: Vec<Layer>,
    loaded: bool,
    sources: Sources,
}

impl Config {
    #[verifier::type_invariant]
    spec fn inv(&self) -> bool {
        if self.loaded {
            self.layers@.len() >= 4
        } else {
            self.layers@.len() == 0
        }
    }

    /// The trees of the layers, the tree of the highest precedence first.
    pub open spec fn trees(&self) -> Seq<Tree> {
        layer_trees(self.layers())
    }

    /// The names of the sources of the layers, in the order of the trees.
    pub open spec fn sources(&self) -> Seq<Seq<char>> {
        layer_sources(self.layers())
    }

    /// Whether the configuration has been loaded.
    pub closed spec fn is_loaded(&self) -> bool {
        self.loaded
    }

    /// The layers, the layer of the highest precedence first.
    pub closed spec fn layers(&self) -> Seq<Layer> {
        self.layers@
    }

    /// The name of the application.
    pub closed spec fn name(&self) -> Seq<char> {
        self.application_name@
    }

    /// The environment and the files that strings are expanded with.
    pub closed spec fn surroundings(&self) -> Sources {
        self.sources
    }

    /// The schema that the configuration was made with.
    pub closed spec fn schema(&self) -> Schema {
        self.schema
    }

    /// A configuration for `name` that has not been loaded: it has no
    /// layers and an empty schema.
    pub fn new(name: &str) -> (c: Config)
        ensures
            !c.is_loaded(),
            c.name() == name@,
            c.trees() == Seq::<Tree>::empty(),
    {
        let c = Config {
            application_name: name.to_owned(),
            schema: Schema::new().build(),
            layers: Vec::new(),
            loaded: false,
            sources: Sources { env: Vec::new(), files: Vec::new() },
        };
        assert(c.trees() =~= Seq::<Tree>::empty());
        c
    }

    /// The layers that `snapshot` gives for the application.
    fn build(application_name: &str, schema: &Schema, snapshot: &Snapshot) -> (r: Result<
        Vec<Layer>,
        Error,
    >)
        ensures
            match r {
                Ok(layers) => {
                    &&& loaded_trees(application_name@, *schema, *snapshot) == Some(
                        layer_trees(layers@),
                    )
                    &&& loaded_sources(application_name@, *snapshot) == Some(
                        layer_sources(layers@),
                    )
                    &&& layers@.len() >= 4
                },
                Err(e) => loaded_trees(application_name@, *schema, *snapshot) is None
                    && loading_failure(application_name@, *schema, *snapshot, e),
            },
    {
        let flags = match CliLoader::new().read(schema, snapshot) {
            Ok(v) => v,
            Err(e) => {
                return Err(e);
            },
        };
        let env = match EnvLoader::new().read(application_name, schema, snapshot) {
            Ok(v) => v,
            Err(e) => {
                return Err(e);
            },
        };
        let files = match Inner::gather_config_files(application_name, snapshot) {
            Ok(f) => f,
            Err(e) => {
                return Err(e);
            },
        };
        let ghost file_trees = file_views(files@);
        let mut layers: Vec<Layer> = Vec::new();
        layers.push(Layer { source: "cli".to_owned(), tree: flags });
        layers.push(Layer { source: "overrides".to_owned(), tree: Value::Object(Table::new()) });
        layers.push(Layer { source: "env".to_owned(), tree: env });
        let ghost head = layer_trees(layers@);
        let ghost names = layer_sources(layers@);
        assert(names =~= seq!["cli"@, "overrides"@, "env"@]);
        let mut rest = files;
        let mut i: usize = 0;
        let n = rest.len();
        while rest.len() > 0
            invariant
                i + rest@.len() == n == file_trees.len(),
                forall|j: int|
                    0 <= j < rest@.len() ==> (#[trigger] rest@[j]).1@ == file_trees[i + j].1
                        && rest@[j].0@ == file_trees[i + j].0,
                layers@.len() == 3 + i,
                layer_trees(layers@) == head + Seq::new(i as nat, |j: int| file_trees[j].1),
                layer_sources(layers@) == names + Seq::new(i as nat, |j: int| file_trees[j].0),
            decreases rest@.len(),
        {
            let file = rest.remove(0);
            let ghost before = layer_trees(layers@);
            let ghost labels = layer_sources(layers@);
            assert(file.1@ == file_trees[i as int].1);
            assert(file.0@ == file_trees[i as int].0);
            layers.push(Layer { source: file.0, tree: file.1 });
            assert(layer_trees(layers@) =~= before.push(file_trees[i as int].1));
            assert(layer_sources(layers@) =~= labels.push(file_trees[i as int].0));
            assert(names + Seq::new((i + 1) as nat, |j: int| file_trees[j].0) =~= (names
                + Seq::new(i as nat, |j: int| file_trees[j].0)).push(file_trees[i as int].0));
            assert(head + Seq::new((i + 1) as nat, |j: int| file_trees[j].1) =~= (head + Seq::new(
                i as nat,
                |j: int| file_trees[j].1,
            )).push(file_trees[i as int].1));
            i += 1;
        }
        let ghost before = layer_trees(layers@);
        let ghost labels = layer_sources(layers@);
        layers.push(Layer { source: "defaults".to_owned(), tree: schema.defaults_tree() });
        assert(layer_trees(layers@) =~= before + seq![schema.defaults()]);
        assert(layer_sources(layers@) =~= labels + seq!["defaults"@]);
        assert(head =~= seq![flags@, empty_object(), env@]);
        Ok(layers)
    }

    /// Loads the configuration of `application_name` from a snapshot of the
    /// surroundings. A source that cannot be read fails the whole.
    pub fn load(application_name: &str, schema: Schema, snapshot: &Snapshot) -> (r: Result<
        Config,
        Error,
    >)
        ensures
            match r {
                Ok(c) => {
                    &&& c.is_loaded()
                    &&& c.name() == application_name@
                    &&& c.schema() == schema
                    &&& c.surroundings()@ == snapshot.sources@
                    &&& loaded_trees(application_name@, schema, *snapshot) == Some(c.trees())
                    &&& loaded_sources(application_name@, *snapshot) == Some(c.sources())
                },
                Err(e) => loaded_trees(application_name@, schema, *snapshot) is None
                    && loading_failure(application_name@, schema, *snapshot, e),
            },
    {
        match Config::build(application_name, &schema, snapshot) {
            Ok(layers) => Ok(
                Config {
                    application_name: application_name.to_owned(),
                    schema,
                    layers,
                    loaded: true,
                    sources: snapshot.sources.clone(),
                },
            ),
            Err(e) => Err(e),
        }
    }

    /// Loads the configuration anew from `snapshot` and puts the new layers
    /// in the place of the old ones as a whole; what was written with `set`
    /// is gone. Where a source cannot be read, the configuration stays as
    /// it was.
    pub fn reload(&mut self, snapshot: &Snapshot) -> (r: Result<(), Error>)
        ensures
            final(self).name() == old(self).name(),
            final(self).schema() == old(self).schema(),
            match r {
                Ok(_) => {
                    &&& final(self).is_loaded()
                    &&& final(self).surroundings()@ == snapshot.sources@
                    &&& loaded_trees(old(self).name(), old(self).schema(), *snapshot) == Some(
                        final(self).trees(),
                    )
                    &&& loaded_sources(old(self).name(), *snapshot) == Some(final(self).sources())
                },
                Err(e) => {
                    &&& loaded_trees(old(self).name(), old(self).schema(), *snapshot) is None
                    &&& loading_failure(old(self).name(), old(self).schema(), *snapshot, e)
                    &&& final(self).layers() == old(self).layers()
                    &&& final(self).is_loaded() == old(self).is_loaded()
                    &&& final(self).surroundings() == old(self).surroundings()
                },
            },
    {
        proof {
            use_type_invariant(&*self);
        }
        match Config::build(self.application_name.as_str(), &self.schema, snapshot) {
            Ok(layers) => {
                let mut fresh = Config {
                    application_name: self.application_name.clone(),
                    schema: Schema::new().build(),
                    layers,
                    loaded: true,
                    sources: snapshot.sources.clone(),
                };
                std::mem::swap(self, &mut fresh);
                std::mem::swap(&mut self.schema, &mut fresh.schema);
                Ok(())
            },
            Err(e) => Err(e),
        }
    }

    /// The node that the layers resolve `path` to.
    pub fn lookup(&self, path: &str) -> (r: &Value)
        ensures
            r@ == resolved(self.trees(), segments(path@)),
    {
        resolve(&self.layers, path)
    }

    /// What `path` resolves to, read as a `T`; a string is expanded first.
    /// Nothing where the path resolves to nothing, whatever `T` is, and
    /// nothing where what it resolves to cannot be read as `T`.
    pub fn try_get<T: Typed>(&self, path: &str) -> (r: Option<T>)
        ensures
            r is Some <==> found_as::<T>(
                resolved(self.trees(), segments(path@)),
                self.surroundings(),
            ),
            r matches Some(x) ==> x.tree() == presented(
                resolved(self.trees(), segments(path@)),
                self.surroundings(),
            ),
    {
        let found = resolve(&self.layers, path);
        match found {
            Value::Absent => None,
            Value::String(s) => {
                let shown = Value::String(expand_text(s.as_str(), &self.sources));
                T::from_value(&shown)
            },
            _ => T::from_value(found),
        }
    }

    /// What `path` resolves to, read as a `T`. A configuration that was
    /// not loaded fails with `NotInitialized`; a path that resolves to
    /// nothing, or to what cannot be read as `T`, fails with `MissingPath`.
    pub fn get<T: Typed>(&self, path: &str) -> (r: Result<T, Error>)
        ensures
            match r {
                Ok(x) => self.is_loaded() && x.tree() == presented(
                    resolved(self.trees(), segments(path@)),
                    self.surroundings(),
                ),
                Err(Error::NotInitialized) => !self.is_loaded(),
                Err(Error::MissingPath(p)) => self.is_loaded() && p@ == path@ && !found_as::<T>(
                    resolved(self.trees(), segments(path@)),
                    self.surroundings(),
                ),
                Err(_) => false,
            },
    {
        if !self.loaded {
            return Err(Error::NotInitialized);
        }
        match self.try_get::<T>(path) {
            Some(x) => Ok(x),
            None => Err(Error::MissingPath(path.to_owned())),
        }
    }

    /// Assigns `value` at `path` in the overrides, which stand just below
    /// the command-line flags. No other layer changes. A configuration that
    /// was not loaded fails with `NotInitialized` and stays as it was.
    pub fn set<T: IntoDefault>(&mut self, path: &str, value: T) -> (r: Result<(), Error>)
        ensures
            final(self).is_loaded() == old(self).is_loaded(),
            final(self).name() == old(self).name(),
            final(self).schema() == old(self).schema(),
            final(self).surroundings() == old(self).surroundings(),
            match r {
                Ok(_) => {
                    &&& old(self).is_loaded()
                    &&& old(self).trees().len() >= 4
                    &&& final(self).sources() == old(self).sources()
                    &&& final(self).trees() == old(self).trees().update(
                        1,
                        assign(old(self).trees()[1], segments(path@), value.tree()),
                    )
                },
                Err(e) => !old(self).is_loaded() && e is NotInitialized && final(self).layers()
                    == old(self).layers(),
            },
    {
        proof {
            use_type_invariant(&*self);
        }
        if !self.loaded {
            return Err(Error::NotInitialized);
        }
        let ghost before = self.layers@;
        let mut taken = Config {
            application_name: String::new(),
            schema: Schema::new().build(),
            layers: Vec::new(),
            loaded: false,
            sources: Sources { env: Vec::new(), files: Vec::new() },
        };
        std::mem::swap(self, &mut taken);
        let Config { application_name, schema, layers, loaded, sources } = taken;
        let mut layers = layers;
        let overrides = layers.remove(1);
        let mut tree = overrides.tree;
        tree.set_path(path, value.into_value());
        layers.insert(1, Layer { source: overrides.source, tree });
        assert(layer_trees(layers@) =~= layer_trees(before).update(
            1,
            assign(before[1].tree@, segments(path@), value.tree()),
        ));
        assert(layer_sources(layers@) =~= layer_sources(before));
        *self = Config { application_name, schema, layers, loaded: true, sources };
        Ok(())
    }

    /// What the command-line flags have at `path`.
    pub fn get_from_flag(&self, path: &str) -> (r: &Value)
        ensures
            r@ == (if self.is_loaded() {
                lookup(self.trees()[0], segments(path@))
            } else {
                Tree::Absent
            }),
    {
        proof {
            use_type_invariant(self);
        }
        if self.loaded {
            self.layers[0].tree.get_path(path)
        } else {
            &Value::Absent
        }
    }

    /// What the environment variables have at `path`.
    pub fn get_from_env(&self, path: &str) -> (r: &Value)
        ensures
            r@ == (if self.is_loaded() {
                lookup(self.trees()[2], segments(path@))
            } else {
                Tree::Absent
            }),
    {
        proof {
            use_type_invariant(self);
        }
        if self.loaded {
            self.layers[2].tree.get_path(path)
        } else {
            &Value::Absent
        }
    }

    /// What the first configuration file that has something at `path` has
    /// there.
    pub fn get_from_config(&self, path: &str) -> (r: &Value)
        ensures
            r@ == (if self.is_loaded() {
                resolved(
                    self.trees().subrange(3, self.trees().len() - 1),
                    segments(path@),
                )
            } else {
                Tree::Absent
            }),
    {
        proof {
            use_type_invariant(self);
        }
        if !self.loaded {
            return &Value::Absent;
        }
        let end = self.layers.len() - 1;
        let ghost files = self.trees().subrange(3, end as int);
        let mut i: usize = 3;
        assert(files.skip(0) == files);
        while i < end
            invariant
                3 <= i <= end,
                self.loaded,
                end == self.layers@.len() - 1,
                files == layer_trees(self.layers@).subrange(3, end as int),
                resolved(files, segments(path@)) == resolved(files.skip(i - 3), segments(path@)),
            decreases end - i,
        {
            proof {
                let rest = files.skip(i - 3);
                assert(rest[0] == self.layers@[i as int].tree@);
                assert(rest.drop_first() == files.skip(i - 3 + 1));
            }
            let found = self.layers[i].tree.get_path(path);
            if !found.is_none() {
                return found;
            }
            i += 1;
        }
        &Value::Absent
    }

    /// What the configuration file at `fs_path` has at `path`; `Absent`
    /// where no file from that place was loaded.
    pub fn get_from_config_at_path(&self, fs_path: &str, path: &str) -> (r: &Value)
        ensures
            r@ == (if self.is_loaded() {
                from_source(
                    self.layers(),
                    3,
                    self.layers().len() - 1,
                    fs_path@,
                    segments(path@),
                )
            } else {
                Tree::Absent
            }),
    {
        proof {
            use_type_invariant(self);
        }
        if !self.loaded {
            return &Value::Absent;
        }
        let wanted = fs_path.to_owned();
        let end = self.layers.len() - 1;
        let mut i: usize = 3;
        while i < end
            invariant
                3 <= i <= end,
                self.loaded,
                wanted@ == fs_path@,
                end == self.layers@.len() - 1,
                from_source(self.layers@, 3, end as int, fs_path@, segments(path@)) == from_source(
                    self.layers@,
                    i as int,
                    end as int,
                    fs_path@,
                    segments(path@),
                ),
            decreases end - i,
        {
            if self.layers[i].source == wanted {
                return self.layers[i].tree.get_path(path);
            }
            i += 1;
        }
        &Value::Absent
    }
}

/// A configuration for `name` that has not been loaded.
pub fn unison(name: &str) -> (c: Config)
    ensures
        !c.is_loaded(),
        c.name() == name@,
{
    Config::new(name)
}

} // verus!
