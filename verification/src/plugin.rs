//! The extension catalogue: what the surrounding tooling knows about each
//! extension — where to fetch it, how to build it, how to install it for a
//! run, and what it depends on — and the pure queries over the catalogue.

use vstd::prelude::*;

use crate::text::str_eq;

verus! {

/// Why a catalogue query failed.
#[derive(Clone, Copy, PartialEq, Eq, Structural, Debug)]
pub enum PluginError {
    /// The named extension has no catalogue entry.
    PluginNotFound,
}

/// Git download metadata
pub struct GitDownload {
    /// The repository to clone.
    pub url: String,
    /// The revision to check out, when pinned.
    pub rev: Option<String>,
    /// The subdirectory holding the extension, when not the root.
    pub sub_path: Option<String>,
}

/// How an extension is activated for a run.
#[derive(Clone, Copy, PartialEq, Eq, Structural, Debug)]
pub enum InstallStrategy {
    /// Default install method, simply call create extension.
    Install,
    /// Preload shared library
    Preload,
    /// First preload, then install
    PreloadInstall,
    /// load in session shared libraries, then install
    LoadInstall,
    /// load in session shared libraries
    Load,
}

impl InstallStrategy {
    /// Whether this strategy puts the library into the shared preload list.
    pub open spec fn spec_is_preload(self) -> bool {
        self == InstallStrategy::Preload || self == InstallStrategy::PreloadInstall
    }

    /// Whether this strategy runs a create-extension step.
    pub open spec fn spec_is_install(self) -> bool {
        self == InstallStrategy::Install || self == InstallStrategy::PreloadInstall || self
            == InstallStrategy::LoadInstall
    }

    /// Whether this strategy loads the library into the session.
    pub open spec fn spec_is_load(self) -> bool {
        self == InstallStrategy::Load || self == InstallStrategy::LoadInstall
    }

    /// Whether this strategy puts the library into the shared preload list.
    pub fn is_preload(&self) -> (r: bool)
        ensures
            r == self.spec_is_preload(),
    {
        match self {
            InstallStrategy::Preload | InstallStrategy::PreloadInstall => true,
            _ => false,
        }
    }

    /// Whether this strategy runs a create-extension step.
    pub fn is_install(&self) -> (r: bool)
        ensures
            r == self.spec_is_install(),
    {
        match self {
            InstallStrategy::Install | InstallStrategy::PreloadInstall
            | InstallStrategy::LoadInstall => true,
            _ => false,
        }
    }

    /// Whether this strategy loads the library into the session.
    pub fn is_load(&self) -> (r: bool)
        ensures
            r == self.spec_is_load(),
    {
        match self {
            InstallStrategy::Load | InstallStrategy::LoadInstall => true,
            _ => false,
        }
    }
}

/// How an extension's regression tests obtain it.
#[derive(Clone, Copy, PartialEq, Eq, Structural, Debug)]
pub enum CheckStrategy {
    /// Default install method, simply call create extension.
    Install,
    /// Don't create extension because the unit test is creating it.
    NoInstall,
}

/// The strategy an entry without an explicit one gets.
pub fn default_install_strategy() -> (r: InstallStrategy)
    ensures
        r == InstallStrategy::Install,
{
    InstallStrategy::Install
}

/// The check strategy an entry without an explicit one gets.
pub fn default_check_strategy() -> (r: CheckStrategy)
    ensures
        r == CheckStrategy::Install,
{
    CheckStrategy::Install
}

/// One catalogue entry.
pub struct Plugin {
    /// The extension's name.
    pub name: String,
    /// The packaged version.
    pub version: String,
    /// Archive download source, when distributed as a tarball.
    pub download_url_tar: Option<String>,
    /// Archive download source, when distributed as a zip file.
    pub download_url_zip: Option<String>,
    /// Git download source, when distributed as a repository.
    pub download_git: Option<GitDownload>,
    /// The contrib subdirectory to copy, for in-tree extensions.
    pub copy_from_contrib: Option<String>,
    /// Set when nothing needs downloading.
    pub no_download: Option<bool>,
    /// Which build pipeline resolves this entry.
    pub resolver: String,
    /// Extra arguments handed to the resolver.
    pub resolver_args: Vec<String>,
    /// How the extension is activated for a run.
    pub install_strategy: InstallStrategy,
    /// How its regression tests obtain it.
    pub check_strategy: CheckStrategy,
    /// Names of the catalogue entries this one depends on.
    pub dependencies: Vec<String>,
}

/// The catalogue.
pub struct PluginDb {
    /// All entries, in catalogue order.
    pub plugins: Vec<Plugin>,
}

/// The model of a git download source: strings as character sequences.
pub struct GitDownloadModel {
    /// The repository to clone.
    pub url: Seq<char>,
    /// The revision to check out, when pinned.
    pub rev: Option<Seq<char>>,
    /// The subdirectory holding the extension, when not the root.
    pub sub_path: Option<Seq<char>>,
}

/// The view of an optional string.
pub open spec fn opt_view(v: Option<String>) -> Option<Seq<char>> {
    match v {
        Some(s) => Some(s@),
        None => None,
    }
}

impl View for GitDownload {
    type V = GitDownloadModel;

    open spec fn view(&self) -> GitDownloadModel {
        GitDownloadModel {
            url: self.url@,
            rev: opt_view(self.rev),
            sub_path: opt_view(self.sub_path),
        }
    }
}

/// The model of a catalogue entry: strings as character sequences, lists as
/// sequences.
#[verifier::ext_equal]
pub struct PluginModel {
    /// The extension's name.
    pub name: Seq<char>,
    /// The packaged version.
    pub version: Seq<char>,
    /// Archive download source, when distributed as a tarball.
    pub download_url_tar: Option<Seq<char>>,
    /// Archive download source, when distributed as a zip file.
    pub download_url_zip: Option<Seq<char>>,
    /// Git download source, when distributed as a repository.
    pub download_git: Option<GitDownloadModel>,
    /// The contrib subdirectory to copy, for in-tree extensions.
    pub copy_from_contrib: Option<Seq<char>>,
    /// Set when nothing needs downloading.
    pub no_download: Option<bool>,
    /// Which build pipeline resolves this entry.
    pub resolver: Seq<char>,
    /// Extra arguments handed to the resolver.
    pub resolver_args: Seq<Seq<char>>,
    /// How the extension is activated for a run.
    pub install_strategy: InstallStrategy,
    /// How its regression tests obtain it.
    pub check_strategy: CheckStrategy,
    /// Names of the catalogue entries this one depends on.
    pub dependencies: Seq<Seq<char>>,
}

impl View for Plugin {
    type V = PluginModel;

    open spec fn view(&self) -> PluginModel {
        PluginModel {
            name: self.name@,
            version: self.version@,
            download_url_tar: opt_view(self.download_url_tar),
            download_url_zip: opt_view(self.download_url_zip),
            download_git: match self.download_git {
                Some(g) => Some(g@),
                None => None,
            },
            copy_from_contrib: opt_view(self.copy_from_contrib),
            no_download: self.no_download,
            resolver: self.resolver@,
            resolver_args: self.resolver_args.deep_view(),
            install_strategy: self.install_strategy,
            check_strategy: self.check_strategy,
            dependencies: self.dependencies.deep_view(),
        }
    }
}

impl DeepView for Plugin {
    type V = PluginModel;

    open spec fn deep_view(&self) -> PluginModel {
        self.view()
    }
}

/// Clone a borrowed optional string by value.
fn clone_opt_string(v: &Option<String>) -> (r: Option<String>)
    ensures
        r == *v,
{
    match v {
        Some(s) => Some(s.clone()),
        None => None,
    }
}

/// Clone a borrowed string vector, keeping every element.
fn clone_string_vec(v: &Vec<String>) -> (r: Vec<String>)
    ensures
        r@ == v@,
{
    let r = v.clone();
    proof {
        assert forall|i: int| 0 <= i < r@.len() implies r@[i] == v@[i] by {
            assert(cloned::<String>(v@[i], r@[i]));
        }
        assert(r@ =~= v@);
    }
    r
}

impl Clone for GitDownload {
    /// An exact copy.
    fn clone(&self) -> (r: Self)
        ensures
            r == *self,
    {
        GitDownload {
            url: self.url.clone(),
            rev: clone_opt_string(&self.rev),
            sub_path: clone_opt_string(&self.sub_path),
        }
    }
}

impl Clone for Plugin {
    /// A copy with the same model.
    fn clone(&self) -> (r: Self)
        ensures
            r@ == self@,
    {
        Plugin {
            name: self.name.clone(),
            version: self.version.clone(),
            download_url_tar: clone_opt_string(&self.download_url_tar),
            download_url_zip: clone_opt_string(&self.download_url_zip),
            download_git: match &self.download_git {
                Some(g) => Some(g.clone()),
                None => None,
            },
            copy_from_contrib: clone_opt_string(&self.copy_from_contrib),
            no_download: self.no_download,
            resolver: self.resolver.clone(),
            resolver_args: clone_string_vec(&self.resolver_args),
            install_strategy: self.install_strategy,
            check_strategy: self.check_strategy,
            dependencies: clone_string_vec(&self.dependencies),
        }
    }
}

/// The position of the first catalogue entry named `name`, or the catalogue
/// length when none is.
pub open spec fn spec_find_index(plugins: Seq<PluginModel>, name: Seq<char>) -> int
    decreases plugins.len(),
{
    if plugins.len() == 0 {
        0
    } else if plugins[0].name == name {
        0
    } else {
        1 + spec_find_index(plugins.drop_first(), name)
    }
}

/// Whether the catalogue holds an entry named `name`.
pub open spec fn spec_has_plugin(plugins: Seq<PluginModel>, name: Seq<char>) -> bool {
    exists|i: int| 0 <= i < plugins.len() && plugins[i].name == name
}

/// The first catalogue entry named `name`.
pub open spec fn spec_find_plugin(plugins: Seq<PluginModel>, name: Seq<char>) -> PluginModel {
    plugins[spec_find_index(plugins, name)]
}

/// The first position is a position of `name` when the catalogue holds one,
/// nothing before it matches, and it is the length otherwise.
pub proof fn lemma_find_index(plugins: Seq<PluginModel>, name: Seq<char>)
    ensures
        0 <= spec_find_index(plugins, name) <= plugins.len(),
        spec_has_plugin(plugins, name) <==> spec_find_index(plugins, name) < plugins.len(),
        spec_find_index(plugins, name) < plugins.len() ==> plugins[spec_find_index(
            plugins,
            name,
        )].name == name,
        forall|j: int| 0 <= j < spec_find_index(plugins, name) ==> (#[trigger] plugins[j]).name
            != name,
    decreases plugins.len(),
{
    if plugins.len() > 0 && plugins[0].name != name {
        lemma_find_index(plugins.drop_first(), name);
        let sub = plugins.drop_first();
        let i = spec_find_index(plugins, name);
        if spec_has_plugin(sub, name) {
            let j = choose|j: int| 0 <= j < sub.len() && sub[j].name == name;
            assert(plugins[j + 1].name == name);
        }
        if spec_has_plugin(plugins, name) {
            let j = choose|j: int| 0 <= j < plugins.len() && plugins[j].name == name;
            assert(sub[j - 1].name == name);
        }
        assert forall|j: int| 0 <= j < i implies (#[trigger] plugins[j]).name != name by {
            if j > 0 {
                assert(sub[j - 1].name != name);
            }
        }
    }
}

/// Gets a plugin in `plugindb`: the first entry under the given name, or the
/// lookup error exactly when no entry carries it.
pub fn find_plugin(db: &PluginDb, name: &str) -> (r: Result<Plugin, PluginError>)
    ensures
        spec_has_plugin(db.plugins.deep_view(), name@) ==> r is Ok && r->Ok_0@ == spec_find_plugin(
            db.plugins.deep_view(),
            name@,
        ),
        !spec_has_plugin(db.plugins.deep_view(), name@) ==> r == Err::<Plugin, PluginError>(
            PluginError::PluginNotFound,
        ),
{
    let ghost model = db.plugins.deep_view();
    let n = db.plugins.len();
    let mut i: usize = 0;
    while i < n
        invariant
            0 <= i <= n,
            n == db.plugins@.len(),
            n == model.len(),
            model == db.plugins.deep_view(),
            forall|j: int| 0 <= j < i ==> (#[trigger] model[j]).name != name@,
        decreases n - i,
    {
        proof {
            assert(model[i as int] == db.plugins@[i as int]@);
        }
        if str_eq(db.plugins[i].name.as_str(), name) {
            proof {
                lemma_find_index(model, name@);
                assert(model[i as int].name == name@);
                assert(spec_find_index(model, name@) == i as int);
            }
            return Ok(db.plugins[i].clone());
        }
        i = i + 1;
    }
    proof {
        lemma_find_index(model, name@);
    }
    Err(PluginError::PluginNotFound)
}

/// One dependency step: the first catalogue entry named `a` lists `b`.
pub open spec fn spec_dep_edge(db: Seq<PluginModel>, a: Seq<char>, b: Seq<char>) -> bool {
    spec_has_plugin(db, a) && spec_find_plugin(db, a).dependencies.contains(b)
}

/// A walk through the dependency graph: it starts at a dependency of one of
/// the `sources` and follows catalogue dependency steps.
pub open spec fn spec_is_dep_chain(
    db: Seq<PluginModel>,
    sources: Seq<PluginModel>,
    chain: Seq<Seq<char>>,
) -> bool {
    &&& chain.len() >= 1
    &&& exists|p: int|
        0 <= p < sources.len() && (#[trigger] sources[p]).dependencies.contains(chain[0])
    &&& forall|i: int| 0 <= i < chain.len() - 1 ==> spec_dep_edge(db, #[trigger] chain[i], chain[i + 1])
}

/// Whether `name` lies in the dependency closure of the `sources`.
pub open spec fn spec_dep_reachable(
    db: Seq<PluginModel>,
    sources: Seq<PluginModel>,
    name: Seq<char>,
) -> bool {
    exists|chain: Seq<Seq<char>>|
        spec_is_dep_chain(db, sources, chain) && (#[trigger] chain.last()) == name
}

/// Whether `name` belongs on the shared preload list for the `sources`: a
/// source itself installed by preloading, or a dependency-closure member
/// whose catalogue entry is installed by preloading.
pub open spec fn spec_preload_selected(
    db: Seq<PluginModel>,
    sources: Seq<PluginModel>,
    name: Seq<char>,
) -> bool {
    ||| exists|p: int|
        0 <= p < sources.len() && (#[trigger] sources[p]).name == name
            && sources[p].install_strategy.spec_is_preload()
    ||| (spec_dep_reachable(db, sources, name) && spec_has_plugin(db, name) && spec_find_plugin(
        db,
        name,
    ).install_strategy.spec_is_preload())
}

/// Every dependency named by a catalogue entry or a source resolves in the
/// catalogue.
pub open spec fn spec_deps_resolve(db: Seq<PluginModel>, sources: Seq<PluginModel>) -> bool {
    &&& forall|i: int, j: int|
        0 <= i < db.len() && 0 <= j < db[i].dependencies.len() ==> spec_has_plugin(
            db,
            #[trigger] db[i].dependencies[j],
        )
    &&& forall|i: int, j: int|
        0 <= i < sources.len() && 0 <= j < sources[i].dependencies.len() ==> spec_has_plugin(
            db,
            #[trigger] sources[i].dependencies[j],
        )
}

/// Whether the vector holds the name.
fn contains_name(v: &Vec<String>, name: &str) -> (r: bool)
    ensures
        r == v.deep_view().contains(name@),
{
    let n = v.len();
    let mut i: usize = 0;
    while i < n
        invariant
            0 <= i <= n,
            n == v@.len(),
            forall|j: int| 0 <= j < i ==> v.deep_view()[j] != name@,
        decreases n - i,
    {
        if str_eq(v[i].as_str(), name) {
            proof {
                assert(v.deep_view()[i as int] == name@);
            }
            return true;
        }
        i = i + 1;
    }
    false
}

/// A push of a fresh element keeps a sequence duplicate-free.
proof fn lemma_push_no_dup<A>(s: Seq<A>, x: A)
    requires
        s.no_duplicates(),
        !s.contains(x),
    ensures
        s.push(x).no_duplicates(),
{
    assert forall|i: int, j: int|
        0 <= i < s.push(x).len() && 0 <= j < s.push(x).len() && i != j implies s.push(x)[i]
        != s.push(x)[j] by {
        if i < s.len() && j < s.len() {
        } else if i < s.len() {
            assert(s.contains(x) || s[i] != x);
        } else if j < s.len() {
            assert(s.contains(x) || s[j] != x);
        }
    }
}

/// Reachability extends along a dependency step.
proof fn lemma_reach_step(
    db: Seq<PluginModel>,
    sources: Seq<PluginModel>,
    a: Seq<char>,
    b: Seq<char>,
)
    requires
        spec_dep_reachable(db, sources, a),
        spec_dep_edge(db, a, b),
    ensures
        spec_dep_reachable(db, sources, b),
{
    let chain = choose|chain: Seq<Seq<char>>|
        spec_is_dep_chain(db, sources, chain) && (#[trigger] chain.last()) == a;
    let chain2 = chain.push(b);
    assert(chain2[0] == chain[0]);
    assert forall|i: int| 0 <= i < chain2.len() - 1 implies spec_dep_edge(
        db,
        #[trigger] chain2[i],
        chain2[i + 1],
    ) by {
        if i < chain.len() - 1 {
            assert(chain2[i] == chain[i] && chain2[i + 1] == chain[i + 1]);
        } else {
            assert(chain2[i] == chain.last() && chain2[i + 1] == b);
        }
    }
    assert(spec_is_dep_chain(db, sources, chain2) && chain2.last() == b);
}

/// Only as many distinct catalogue names exist as catalogue entries.
proof fn lemma_unique_names_bound(db: Seq<PluginModel>, names: Seq<Seq<char>>)
    requires
        names.no_duplicates(),
        forall|k: int| 0 <= k < names.len() ==> spec_has_plugin(db, #[trigger] names[k]),
    ensures
        names.len() <= db.len(),
{
    let indices = names.map_values(|n: Seq<char>| spec_find_index(db, n));
    assert forall|i: int, j: int|
        0 <= i < indices.len() && 0 <= j < indices.len() && i != j implies indices[i]
        != indices[j] by {
        lemma_find_index(db, names[i]);
        lemma_find_index(db, names[j]);
        assert(db[spec_find_index(db, names[i])].name == names[i]);
        assert(db[spec_find_index(db, names[j])].name == names[j]);
    }
    assert(indices.no_duplicates());
    indices.unique_seq_to_set();
    assert forall|x: int| indices.to_set().contains(x) implies vstd::set_lib::set_int_range(
        0,
        db.len() as int,
    ).contains(x) by {
        let k = choose|k: int| 0 <= k < indices.len() && indices[k] == x;
        lemma_find_index(db, names[k]);
    }
    vstd::set_lib::lemma_int_range(0, db.len() as int);
    vstd::set_lib::lemma_len_subset(
        indices.to_set(),
        vstd::set_lib::set_int_range(0, db.len() as int),
    );
}

/// With the closure complete — every dependency of a gathered name is
/// gathered, and every source dependency is gathered — every chain stays
/// inside the gathered names.
proof fn lemma_chain_covered(
    db: Seq<PluginModel>,
    sources: Seq<PluginModel>,
    gathered: Seq<Seq<char>>,
    chain: Seq<Seq<char>>,
    upto: int,
)
    requires
        spec_is_dep_chain(db, sources, chain),
        0 <= upto < chain.len(),
        forall|i: int, j: int|
            0 <= i < sources.len() && 0 <= j < sources[i].dependencies.len()
                ==> gathered.contains(#[trigger] sources[i].dependencies[j]),
        forall|x: Seq<char>, d: Seq<char>|
            gathered.contains(x) && spec_has_plugin(db, x) && #[trigger] spec_find_plugin(
                db,
                x,
            ).dependencies.contains(d) ==> gathered.contains(d),
    ensures
        gathered.contains(chain[upto]),
    decreases upto,
{
    if upto == 0 {
        let p = choose|p: int|
            0 <= p < sources.len() && (#[trigger] sources[p]).dependencies.contains(chain[0]);
        let j = choose|j: int|
            0 <= j < sources[p].dependencies.len() && sources[p].dependencies[j] == chain[0];
        assert(gathered.contains(sources[p].dependencies[j]));
    } else {
        lemma_chain_covered(db, sources, gathered, chain, upto - 1);
        assert(spec_dep_edge(db, chain[upto - 1], chain[upto]));
    }
}

/// The gathered names are sound: unique, each resolving in the catalogue
/// and lying in the dependency closure of the sources.
spec fn gathered_ok(db: Seq<PluginModel>, sources: Seq<PluginModel>, seen: Seq<Seq<char>>) -> bool {
    &&& seen.no_duplicates()
    &&& forall|n: Seq<char>|
        #[trigger] seen.contains(n) ==> spec_has_plugin(db, n) && spec_dep_reachable(
            db,
            sources,
            n,
        )
}

/// Every direct dependency of a source is gathered.
spec fn seeds_covered(sources: Seq<PluginModel>, seen: Seq<Seq<char>>) -> bool {
    forall|a: int, j: int|
        0 <= a < sources.len() && 0 <= j < sources[a].dependencies.len() ==> seen.contains(
            #[trigger] sources[a].dependencies[j],
        )
}

/// Every dependency of a gathered name outside the worklist is gathered.
spec fn expanded_ok(db: Seq<PluginModel>, seen: Seq<Seq<char>>, stack: Seq<Seq<char>>) -> bool {
    forall|x: Seq<char>, d: Seq<char>|
        seen.contains(x) && !stack.contains(x) && #[trigger] spec_find_plugin(
            db,
            x,
        ).dependencies.contains(d) ==> seen.contains(d)
}

/// Seed the worklist with every direct dependency of the given plugins.
#[verifier::loop_isolation(false)]
fn seed_worklist(
    plugins: &[Plugin],
    Ghost(dbm): Ghost<Seq<PluginModel>>,
    seen: &mut Vec<String>,
    stack: &mut Vec<String>,
)
    requires
        old(seen)@.len() == 0,
        old(stack)@.len() == 0,
        spec_deps_resolve(dbm, plugins.deep_view()),
    ensures
        final(seen).deep_view() == final(stack).deep_view(),
        gathered_ok(dbm, plugins.deep_view(), final(seen).deep_view()),
        seeds_covered(plugins.deep_view(), final(seen).deep_view()),
{
    let ghost srcs = plugins.deep_view();
    let np = plugins.len();
    let mut i: usize = 0;
    proof {
        assert(seen.deep_view() =~= Seq::<Seq<char>>::empty());
        assert(stack.deep_view() =~= Seq::<Seq<char>>::empty());
    }
    while i < np
        invariant
            0 <= i <= np,
            seen.deep_view() == stack.deep_view(),
            gathered_ok(dbm, srcs, seen.deep_view()),
            forall|a: int, j: int|
                0 <= a < i && 0 <= j < srcs[a].dependencies.len() ==> seen.deep_view().contains(
                    #[trigger] srcs[a].dependencies[j],
                ),
        decreases np - i,
    {
        let nd = plugins[i].dependencies.len();
        let mut j: usize = 0;
        while j < nd
            invariant
                0 <= j <= nd,
                nd == srcs[i as int].dependencies.len(),
                seen.deep_view() == stack.deep_view(),
                gathered_ok(dbm, srcs, seen.deep_view()),
                forall|a: int, k: int|
                    0 <= a < i && 0 <= k < srcs[a].dependencies.len() ==> seen.deep_view().contains(
                        #[trigger] srcs[a].dependencies[k],
                    ),
                forall|k: int|
                    0 <= k < j ==> seen.deep_view().contains(
                        #[trigger] srcs[i as int].dependencies[k],
                    ),
            decreases nd - j,
        {
            let d = &plugins[i].dependencies[j];
            proof {
                assert(srcs[i as int] == plugins@[i as int]@);
                assert(srcs[i as int].dependencies[j as int] == d@);
                assert(spec_has_plugin(dbm, d@));
            }
            if !contains_name(seen, d.as_str()) {
                let ghost pre_seen = seen.deep_view();
                seen.push(d.clone());
                stack.push(d.clone());
                proof {
                    assert(seen.deep_view() =~= pre_seen.push(d@));
                    assert(stack.deep_view() =~= pre_seen.push(d@));
                    lemma_push_no_dup(pre_seen, d@);
                    let chain = seq![d@];
                    assert(chain[0] == d@ && chain.last() == d@);
                    assert(spec_is_dep_chain(dbm, srcs, chain));
                    assert(spec_dep_reachable(dbm, srcs, d@));
                    assert forall|n: Seq<char>| #[trigger] seen.deep_view().contains(n) implies
                        spec_has_plugin(dbm, n) && spec_dep_reachable(dbm, srcs, n) by {
                        if n != d@ {
                            let k = choose|k: int|
                                0 <= k < seen.deep_view().len() && seen.deep_view()[k] == n;
                            assert(pre_seen[k] == n);
                            assert(pre_seen.contains(n));
                        }
                    }
                    assert forall|n: Seq<char>| pre_seen.contains(n) implies
                        #[trigger] seen.deep_view().contains(n) by {
                        let k = choose|k: int| 0 <= k < pre_seen.len() && pre_seen[k] == n;
                        assert(seen.deep_view()[k] == n);
                    }
                    assert(seen.deep_view()[pre_seen.len() as int] == d@);
                    assert(seen.deep_view().contains(d@));
                }
            } else {
                proof {
                    assert(seen.deep_view().contains(d@));
                }
            }
            j = j + 1;
        }
        i = i + 1;
    }
}

/// Expand one gathered name: push every dependency of its catalogue entry
/// not gathered yet.
#[verifier::loop_isolation(false)]
#[verifier::rlimit(60)]
fn expand_one(
    db: &PluginDb,
    Ghost(srcs): Ghost<Seq<PluginModel>>,
    name: &String,
    seen: &mut Vec<String>,
    stack: &mut Vec<String>,
)
    requires
        spec_deps_resolve(db.plugins.deep_view(), srcs),
        gathered_ok(db.plugins.deep_view(), srcs, old(seen).deep_view()),
        old(stack).deep_view().no_duplicates(),
        forall|n: Seq<char>|
            #[trigger] old(stack).deep_view().contains(n) ==> old(seen).deep_view().contains(n),
        old(seen).deep_view().contains(name@),
        !old(stack).deep_view().contains(name@),
        expanded_ok(
            db.plugins.deep_view(),
            old(seen).deep_view(),
            old(stack).deep_view().push(name@),
        ),
    ensures
        gathered_ok(db.plugins.deep_view(), srcs, final(seen).deep_view()),
        final(stack).deep_view().no_duplicates(),
        forall|n: Seq<char>|
            #[trigger] final(stack).deep_view().contains(n) ==> final(seen).deep_view().contains(
                n,
            ),
        expanded_ok(db.plugins.deep_view(), final(seen).deep_view(), final(stack).deep_view()),
        forall|n: Seq<char>|
            #[trigger] old(seen).deep_view().contains(n) ==> final(seen).deep_view().contains(n),
        final(seen).deep_view().len() >= old(seen).deep_view().len(),
        final(seen).deep_view().len() == old(seen).deep_view().len() ==> final(stack).deep_view()
            == old(stack).deep_view(),
{
    let ghost dbm = db.plugins.deep_view();
    let pl = match find_plugin(db, name.as_str()) {
        Ok(p) => p,
        Err(_) => unreached(),
    };
    proof {
        assert(pl@ == spec_find_plugin(dbm, name@));
    }
    let nd = pl.dependencies.len();
    let mut j: usize = 0;
    while j < nd
        invariant
            0 <= j <= nd,
            nd == pl@.dependencies.len(),
            gathered_ok(dbm, srcs, seen.deep_view()),
            stack.deep_view().no_duplicates(),
            forall|n: Seq<char>|
                #[trigger] stack.deep_view().contains(n) ==> seen.deep_view().contains(n),
            !stack.deep_view().contains(name@),
            expanded_ok(dbm, seen.deep_view(), stack.deep_view().push(name@)),
            forall|n: Seq<char>|
                #[trigger] old(seen).deep_view().contains(n) ==> seen.deep_view().contains(n),
            seen.deep_view().len() >= old(seen).deep_view().len(),
            seen.deep_view().len() == old(seen).deep_view().len() ==> stack.deep_view() == old(
                stack,
            ).deep_view(),
            forall|k: int|
                0 <= k < j ==> seen.deep_view().contains(#[trigger] pl@.dependencies[k]),
        decreases nd - j,
    {
        let d = &pl.dependencies[j];
        proof {
            assert(pl@.dependencies[j as int] == d@);
            lemma_find_index(dbm, name@);
            assert(dbm[spec_find_index(dbm, name@)] == pl@);
            assert(spec_has_plugin(dbm, d@));
        }
        if !contains_name(seen, d.as_str()) {
            let ghost mid_seen = seen.deep_view();
            let ghost mid_stack = stack.deep_view();
            seen.push(d.clone());
            stack.push(d.clone());
            proof {
                assert(seen.deep_view() =~= mid_seen.push(d@));
                assert(stack.deep_view() =~= mid_stack.push(d@));
                lemma_push_no_dup(mid_seen, d@);
                assert(!mid_stack.contains(d@)) by {
                    if mid_stack.contains(d@) {
                        let k = choose|k: int|
                            0 <= k < mid_stack.len() && mid_stack[k] == d@;
                    }
                }
                lemma_push_no_dup(mid_stack, d@);
                assert(spec_dep_edge(dbm, name@, d@));
                assert(spec_dep_reachable(dbm, srcs, name@));
                lemma_reach_step(dbm, srcs, name@, d@);
                assert forall|n: Seq<char>| #[trigger] seen.deep_view().contains(n) implies
                    spec_has_plugin(dbm, n) && spec_dep_reachable(dbm, srcs, n) by {
                    if n != d@ {
                        let k = choose|k: int|
                            0 <= k < seen.deep_view().len() && seen.deep_view()[k] == n;
                        assert(mid_seen[k] == n);
                        assert(mid_seen.contains(n));
                    }
                }
                assert forall|n: Seq<char>| #[trigger] stack.deep_view().contains(n) implies
                    seen.deep_view().contains(n) by {
                    let k = choose|k: int|
                        0 <= k < stack.deep_view().len() && stack.deep_view()[k] == n;
                    if k < mid_stack.len() {
                        assert(mid_stack.contains(n));
                        let k2 = choose|k2: int| 0 <= k2 < mid_seen.len() && mid_seen[k2] == n;
                        assert(seen.deep_view()[k2] == n);
                    } else {
                        assert(seen.deep_view()[mid_seen.len() as int] == d@);
                    }
                }
                assert(name@ != d@);
                assert(!stack.deep_view().contains(name@)) by {
                    if stack.deep_view().contains(name@) {
                        let k = choose|k: int|
                            0 <= k < stack.deep_view().len() && stack.deep_view()[k] == name@;
                        assert(k < mid_stack.len());
                        assert(mid_stack.contains(name@));
                    }
                }
                assert forall|x: Seq<char>, dd: Seq<char>|
                    seen.deep_view().contains(x) && !stack.deep_view().push(name@).contains(x)
                        && #[trigger] spec_find_plugin(dbm, x).dependencies.contains(dd) implies
                    seen.deep_view().contains(dd) by {
                    assert(x != d@) by {
                        if x == d@ {
                            assert(stack.deep_view().push(name@)[mid_stack.len() as int] == d@);
                        }
                    }
                    assert(x != name@) by {
                        if x == name@ {
                            assert(stack.deep_view().push(name@).last() == name@);
                        }
                    }
                    let k = choose|k: int|
                        0 <= k < seen.deep_view().len() && seen.deep_view()[k] == x;
                    assert(k < mid_seen.len());
                    assert(mid_seen.contains(x));
                    assert(!mid_stack.push(name@).contains(x)) by {
                        if mid_stack.push(name@).contains(x) {
                            let k2 = choose|k2: int|
                                0 <= k2 < mid_stack.push(name@).len() && mid_stack.push(name@)[k2]
                                    == x;
                            if k2 < mid_stack.len() {
                                assert(stack.deep_view().push(name@)[k2] == x);
                            }
                        }
                    }
                    assert(mid_seen.contains(dd));
                    let k3 = choose|k3: int| 0 <= k3 < mid_seen.len() && mid_seen[k3] == dd;
                    assert(seen.deep_view()[k3] == dd);
                }
                assert forall|n: Seq<char>| mid_seen.contains(n) implies
                    #[trigger] seen.deep_view().contains(n) by {
                    let k = choose|k: int| 0 <= k < mid_seen.len() && mid_seen[k] == n;
                    assert(seen.deep_view()[k] == n);
                }
                assert(seen.deep_view()[mid_seen.len() as int] == d@);
                assert(seen.deep_view().contains(d@));
            }
        } else {
            proof {
                assert(seen.deep_view().contains(d@));
            }
        }
        j = j + 1;
    }
    proof {
        assert forall|x: Seq<char>, dd: Seq<char>|
            seen.deep_view().contains(x) && !stack.deep_view().contains(x)
                && #[trigger] spec_find_plugin(dbm, x).dependencies.contains(dd) implies
            seen.deep_view().contains(dd) by {
            if x == name@ {
                let k = choose|k: int|
                    0 <= k < pl@.dependencies.len() && pl@.dependencies[k] == dd;
            } else {
                assert(!stack.deep_view().push(name@).contains(x)) by {
                    if stack.deep_view().push(name@).contains(x) {
                        let k = choose|k: int|
                            0 <= k < stack.deep_view().push(name@).len() && stack.deep_view().push(
                                name@,
                            )[k] == x;
                        assert(k < stack.deep_view().len());
                        assert(stack.deep_view()[k] == x);
                    }
                }
            }
        }
    }
}

/// Expand the closure: gather the dependencies of every gathered name until
/// the worklist runs dry.
#[verifier::loop_isolation(false)]
fn expand_closure(
    db: &PluginDb,
    Ghost(srcs): Ghost<Seq<PluginModel>>,
    seen: &mut Vec<String>,
    stack: &mut Vec<String>,
)
    requires
        spec_deps_resolve(db.plugins.deep_view(), srcs),
        gathered_ok(db.plugins.deep_view(), srcs, old(seen).deep_view()),
        old(stack).deep_view().no_duplicates(),
        forall|n: Seq<char>|
            #[trigger] old(stack).deep_view().contains(n) ==> old(seen).deep_view().contains(n),
        expanded_ok(db.plugins.deep_view(), old(seen).deep_view(), old(stack).deep_view()),
    ensures
        gathered_ok(db.plugins.deep_view(), srcs, final(seen).deep_view()),
        expanded_ok(db.plugins.deep_view(), final(seen).deep_view(), Seq::empty()),
        forall|n: Seq<char>|
            #[trigger] old(seen).deep_view().contains(n) ==> final(seen).deep_view().contains(n),
{
    let ghost dbm = db.plugins.deep_view();
    proof {
        assert forall|k: int| 0 <= k < seen.deep_view().len() implies spec_has_plugin(
            dbm,
            #[trigger] seen.deep_view()[k],
        ) by {
            assert(seen.deep_view().contains(seen.deep_view()[k]));
        }
        lemma_unique_names_bound(dbm, seen.deep_view());
    }
    while stack.len() > 0
        invariant
            gathered_ok(dbm, srcs, seen.deep_view()),
            stack.deep_view().no_duplicates(),
            seen.deep_view().len() <= dbm.len(),
            forall|n: Seq<char>|
                #[trigger] stack.deep_view().contains(n) ==> seen.deep_view().contains(n),
            expanded_ok(dbm, seen.deep_view(), stack.deep_view()),
            forall|n: Seq<char>|
                #[trigger] old(seen).deep_view().contains(n) ==> seen.deep_view().contains(n),
        decreases dbm.len() + 1 - seen.deep_view().len(), stack.deep_view().len(),
    {
        let ghost pre_seen = seen.deep_view();
        let ghost pre_stack = stack.deep_view();
        let name = match stack.pop() {
            Some(n) => n,
            None => unreached(),
        };
        proof {
            assert(pre_stack.contains(pre_stack.last()));
            assert(name@ == pre_stack.last());
            assert(stack.deep_view() =~= pre_stack.drop_last());
            assert(seen.deep_view().contains(name@));
            assert forall|n: Seq<char>| #[trigger] stack.deep_view().contains(n) implies
                seen.deep_view().contains(n) by {
                let k = choose|k: int|
                    0 <= k < stack.deep_view().len() && stack.deep_view()[k] == n;
                assert(pre_stack[k] == n);
                assert(pre_stack.contains(n));
            }
            assert(!stack.deep_view().contains(name@)) by {
                if stack.deep_view().contains(name@) {
                    let k = choose|k: int|
                        0 <= k < stack.deep_view().len() && stack.deep_view()[k] == name@;
                    assert(pre_stack[k] == pre_stack[pre_stack.len() - 1]);
                }
            }
            assert(stack.deep_view().no_duplicates()) by {
                assert forall|a: int, b: int|
                    0 <= a < stack.deep_view().len() && 0 <= b < stack.deep_view().len() && a
                        != b implies stack.deep_view()[a] != stack.deep_view()[b] by {
                    assert(pre_stack[a] == stack.deep_view()[a]);
                    assert(pre_stack[b] == stack.deep_view()[b]);
                }
            }
            assert(expanded_ok(dbm, seen.deep_view(), stack.deep_view().push(name@))) by {
                assert forall|x: Seq<char>, d: Seq<char>|
                    seen.deep_view().contains(x) && !stack.deep_view().push(name@).contains(x)
                        && #[trigger] spec_find_plugin(dbm, x).dependencies.contains(d) implies
                    seen.deep_view().contains(d) by {
                    assert(!pre_stack.contains(x)) by {
                        if pre_stack.contains(x) {
                            let k = choose|k: int|
                                0 <= k < pre_stack.len() && pre_stack[k] == x;
                            if k < pre_stack.len() - 1 {
                                assert(stack.deep_view().push(name@)[k] == x);
                            } else {
                                assert(stack.deep_view().push(name@).last() == name@);
                                assert(stack.deep_view().push(name@)[pre_stack.len() - 1] == x);
                            }
                        }
                    }
                }
            }
        }
        let ghost popped_seen = seen.deep_view();
        let ghost popped_stack = stack.deep_view();
        expand_one(db, Ghost(srcs), &name, seen, stack);
        proof {
            assert forall|k: int| 0 <= k < seen.deep_view().len() implies spec_has_plugin(
                dbm,
                #[trigger] seen.deep_view()[k],
            ) by {
                assert(seen.deep_view().contains(seen.deep_view()[k]));
            }
            lemma_unique_names_bound(dbm, seen.deep_view());
            if seen.deep_view().len() == popped_seen.len() {
                assert(stack.deep_view() == popped_stack);
                assert(stack.deep_view().len() < pre_stack.len());
            }
        }
    }
    proof {
        assert(stack.deep_view() =~= Seq::<Seq<char>>::empty());
    }
}

/// Keep the gathered names whose catalogue entry is installed by preloading.
#[verifier::loop_isolation(false)]
#[verifier::rlimit(30)]
fn collect_preloads_from(db: &PluginDb, seen: &Vec<String>) -> (r: Vec<String>)
    requires
        seen.deep_view().no_duplicates(),
        forall|n: Seq<char>|
            #[trigger] seen.deep_view().contains(n) ==> spec_has_plugin(
                db.plugins.deep_view(),
                n,
            ),
    ensures
        r.deep_view().no_duplicates(),
        forall|m: Seq<char>|
            #[trigger] r.deep_view().contains(m) <==> seen.deep_view().contains(m)
                && spec_has_plugin(db.plugins.deep_view(), m) && spec_find_plugin(
                db.plugins.deep_view(),
                m,
            ).install_strategy.spec_is_preload(),
{
    let ghost dbm = db.plugins.deep_view();
    let mut preloads: Vec<String> = Vec::new();
    let ns = seen.len();
    let mut i: usize = 0;
    proof {
        assert(preloads.deep_view() =~= Seq::<Seq<char>>::empty());
    }
    while i < ns
        invariant
            0 <= i <= ns,
            ns == seen@.len(),
            preloads.deep_view().no_duplicates(),
            forall|m: Seq<char>|
                #[trigger] preloads.deep_view().contains(m) <==> (exists|k: int|
                    0 <= k < i && seen.deep_view()[k] == m) && spec_has_plugin(dbm, m)
                    && spec_find_plugin(dbm, m).install_strategy.spec_is_preload(),
        decreases ns - i,
    {
        let n = &seen[i];
        proof {
            assert(seen.deep_view()[i as int] == n@);
            assert(seen.deep_view().contains(n@));
        }
        let pl = match find_plugin(db, n.as_str()) {
            Ok(p) => p,
            Err(_) => unreached(),
        };
        if pl.install_strategy.is_preload() {
            let ghost pre = preloads.deep_view();
            proof {
                assert(!pre.contains(n@)) by {
                    if pre.contains(n@) {
                        let k = choose|k: int| 0 <= k < i && seen.deep_view()[k] == n@;
                        assert(seen.deep_view()[k] == seen.deep_view()[i as int]);
                    }
                }
            }
            preloads.push(n.clone());
            proof {
                assert(preloads.deep_view() =~= pre.push(n@));
                lemma_push_no_dup(pre, n@);
                assert forall|m: Seq<char>| #[trigger] preloads.deep_view().contains(m) implies (
                exists|k: int| 0 <= k < i + 1 && seen.deep_view()[k] == m) && spec_has_plugin(
                    dbm,
                    m,
                ) && spec_find_plugin(dbm, m).install_strategy.spec_is_preload() by {
                    if m != n@ {
                        let k = choose|k: int|
                            0 <= k < preloads.deep_view().len() && preloads.deep_view()[k] == m;
                        assert(pre[k] == m);
                        assert(pre.contains(m));
                    } else {
                        assert(seen.deep_view()[i as int] == m);
                    }
                }
                assert forall|m: Seq<char>|
                    (exists|k: int| 0 <= k < i + 1 && seen.deep_view()[k] == m) && spec_has_plugin(
                        dbm,
                        m,
                    ) && spec_find_plugin(dbm, m).install_strategy.spec_is_preload() implies
                    #[trigger] preloads.deep_view().contains(m) by {
                    if m == n@ {
                        assert(preloads.deep_view()[pre.len() as int] == m);
                    } else {
                        let k = choose|k: int| 0 <= k < i + 1 && seen.deep_view()[k] == m;
                        assert(k < i);
                        assert(pre.contains(m));
                        let k2 = choose|k2: int| 0 <= k2 < pre.len() && pre[k2] == m;
                        assert(preloads.deep_view()[k2] == m);
                    }
                }
            }
        } else {
            proof {
                assert forall|m: Seq<char>|
                    (exists|k: int| 0 <= k < i + 1 && seen.deep_view()[k] == m) && spec_has_plugin(
                        dbm,
                        m,
                    ) && spec_find_plugin(dbm, m).install_strategy.spec_is_preload() implies
                    #[trigger] preloads.deep_view().contains(m) by {
                    let k = choose|k: int| 0 <= k < i + 1 && seen.deep_view()[k] == m;
                    if k == i as int {
                        assert(m == n@);
                        assert(pl@ == spec_find_plugin(dbm, m));
                        assert(false);
                    }
                }
            }
        }
        i = i + 1;
    }
    preloads
}

/// Append the names of the given plugins that are installed by preloading.
#[verifier::loop_isolation(false)]
#[verifier::rlimit(30)]
fn add_source_preloads(plugins: &[Plugin], preloads: &mut Vec<String>)
    requires
        old(preloads).deep_view().no_duplicates(),
    ensures
        final(preloads).deep_view().no_duplicates(),
        forall|m: Seq<char>|
            #[trigger] final(preloads).deep_view().contains(m) <==> (old(
                preloads,
            ).deep_view().contains(m) || exists|p: int|
                0 <= p < plugins.deep_view().len() && (#[trigger] plugins.deep_view()[p]).name == m
                    && plugins.deep_view()[p].install_strategy.spec_is_preload()),
{
    let ghost srcs = plugins.deep_view();
    let np = plugins.len();
    let mut i: usize = 0;
    while i < np
        invariant
            0 <= i <= np,
            preloads.deep_view().no_duplicates(),
            forall|m: Seq<char>|
                #[trigger] preloads.deep_view().contains(m) <==> (old(
                    preloads,
                ).deep_view().contains(m) || exists|p: int|
                    0 <= p < i && (#[trigger] srcs[p]).name == m
                        && srcs[p].install_strategy.spec_is_preload()),
        decreases np - i,
    {
        proof {
            assert(srcs[i as int] == plugins@[i as int]@);
        }
        let take_it = plugins[i].install_strategy.is_preload() && !contains_name(
            preloads,
            plugins[i].name.as_str(),
        );
        if take_it {
            let ghost pre = preloads.deep_view();
            preloads.push(plugins[i].name.clone());
            proof {
                let nm = srcs[i as int].name;
                assert(preloads.deep_view() =~= pre.push(nm));
                lemma_push_no_dup(pre, nm);
                assert forall|m: Seq<char>| #[trigger] preloads.deep_view().contains(m) implies (
                old(preloads).deep_view().contains(m) || exists|p: int|
                    0 <= p < i + 1 && (#[trigger] srcs[p]).name == m
                        && srcs[p].install_strategy.spec_is_preload()) by {
                    if m != nm {
                        let k = choose|k: int|
                            0 <= k < preloads.deep_view().len() && preloads.deep_view()[k] == m;
                        assert(pre[k] == m);
                        assert(pre.contains(m));
                    } else {
                        assert(srcs[i as int].name == m
                            && srcs[i as int].install_strategy.spec_is_preload());
                    }
                }
                assert forall|m: Seq<char>|
                    (old(preloads).deep_view().contains(m) || exists|p: int|
                        0 <= p < i + 1 && (#[trigger] srcs[p]).name == m
                            && srcs[p].install_strategy.spec_is_preload()) implies
                    #[trigger] preloads.deep_view().contains(m) by {
                    if m == nm {
                        assert(preloads.deep_view()[pre.len() as int] == m);
                    } else {
                        assert(pre.contains(m)) by {
                            if !old(preloads).deep_view().contains(m) {
                                let p = choose|p: int|
                                    0 <= p < i + 1 && (#[trigger] srcs[p]).name == m
                                        && srcs[p].install_strategy.spec_is_preload();
                                assert(p < i);
                            }
                        }
                        let k2 = choose|k2: int| 0 <= k2 < pre.len() && pre[k2] == m;
                        assert(preloads.deep_view()[k2] == m);
                    }
                }
            }
        } else {
            proof {
                let nm = srcs[i as int].name;
                assert forall|m: Seq<char>|
                    (old(preloads).deep_view().contains(m) || exists|p: int|
                        0 <= p < i + 1 && (#[trigger] srcs[p]).name == m
                            && srcs[p].install_strategy.spec_is_preload()) implies
                    #[trigger] preloads.deep_view().contains(m) by {
                    if !old(preloads).deep_view().contains(m) {
                        let p = choose|p: int|
                            0 <= p < i + 1 && (#[trigger] srcs[p]).name == m
                                && srcs[p].install_strategy.spec_is_preload();
                        if p == i as int {
                            assert(m == nm);
                            assert(preloads.deep_view().contains(m));
                        }
                    }
                }
            }
        }
        i = i + 1;
    }
}

/// Collects all unique shared preload libraries in the dependency chain:
/// the names of the given extensions that are installed by preloading, plus
/// every name in their dependency closure whose catalogue entry is installed
/// by preloading.  No order is promised — only that each selected name
/// appears exactly once.
#[verifier::loop_isolation(false)]
pub fn collect_shared_preload_libraries(db: &PluginDb, plugins: &[Plugin]) -> (r: Vec<String>)
    requires
        spec_deps_resolve(db.plugins.deep_view(), plugins.deep_view()),
    ensures
        r.deep_view().no_duplicates(),
        forall|n: Seq<char>|
            #[trigger] r.deep_view().contains(n) <==> spec_preload_selected(
                db.plugins.deep_view(),
                plugins.deep_view(),
                n,
            ),
{
    let ghost dbm = db.plugins.deep_view();
    let ghost srcs = plugins.deep_view();
    let mut seen: Vec<String> = Vec::new();
    let mut stack: Vec<String> = Vec::new();
    seed_worklist(plugins, Ghost(dbm), &mut seen, &mut stack);
    proof {
        assert forall|x: Seq<char>, d: Seq<char>|
            seen.deep_view().contains(x) && !stack.deep_view().contains(x)
                && #[trigger] spec_find_plugin(dbm, x).dependencies.contains(d) implies
            seen.deep_view().contains(d) by {
            assert(stack.deep_view().contains(x));
        }
    }
    let ghost seeded = seen.deep_view();
    expand_closure(db, Ghost(srcs), &mut seen, &mut stack);
    let mut preloads = collect_preloads_from(db, &seen);
    let ghost closure_members = preloads.deep_view();
    add_source_preloads(plugins, &mut preloads);
    proof {
        assert forall|n: Seq<char>| #[trigger] preloads.deep_view().contains(n) implies
            spec_preload_selected(dbm, srcs, n) by {}
        assert forall|n: Seq<char>| spec_preload_selected(dbm, srcs, n) implies
            #[trigger] preloads.deep_view().contains(n) by {
            if !(exists|p: int|
                0 <= p < srcs.len() && (#[trigger] srcs[p]).name == n
                    && srcs[p].install_strategy.spec_is_preload()) {
                let chain = choose|chain: Seq<Seq<char>>|
                    spec_is_dep_chain(dbm, srcs, chain) && (#[trigger] chain.last()) == n;
                assert forall|a: int, j: int|
                    0 <= a < srcs.len() && 0 <= j < srcs[a].dependencies.len() implies
                    seen.deep_view().contains(#[trigger] srcs[a].dependencies[j]) by {
                    assert(seeded.contains(srcs[a].dependencies[j]));
                }
                assert forall|x: Seq<char>, d: Seq<char>|
                    seen.deep_view().contains(x) && spec_has_plugin(dbm, x)
                        && #[trigger] spec_find_plugin(dbm, x).dependencies.contains(d) implies
                    seen.deep_view().contains(d) by {
                    assert(!Seq::<Seq<char>>::empty().contains(x));
                }
                lemma_chain_covered(dbm, srcs, seen.deep_view(), chain, chain.len() - 1);
                assert(seen.deep_view().contains(n));
                assert(closure_members.contains(n));
            }
        }
    }
    preloads
}
} // verus!
