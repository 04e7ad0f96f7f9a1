//! The module tree: configured modules indexed by dotted path, and the
//! resolution of a dotted path to its nearest enclosing module.

use crate::config::modules::{ModuleConfig, ModuleConfigView};
use crate::text::{chars_eq, str_chars, texts};
use vstd::prelude::*;

verus! {

/// One node of the module tree.
#[derive(Debug)]
pub struct ModuleNode {
    pub full_path: String,
    pub config: Option<ModuleConfig>,
    pub interface_members: Vec<String>,
}

/// The mathematical value of a [`ModuleNode`].
pub struct ModuleNodeView {
    pub full_path: Seq<char>,
    pub config: Option<ModuleConfigView>,
    pub interface_members: Seq<Seq<char>>,
}

impl View for ModuleNode {
    type V = ModuleNodeView;

    open spec fn view(&self) -> ModuleNodeView {
        ModuleNodeView {
            full_path: self.full_path@,
            config: match self.config {
                Some(config) => Some(config@),
                None => None,
            },
            interface_members: texts(self.interface_members@),
        }
    }
}

/// Why a module tree could not be built or searched.
#[derive(Debug)]
pub enum ModuleTreeError {
    /// A module of this path is in the tree already.
    DuplicateModule(String),
    /// No module of the tree encloses this path.
    ModuleNotFound(String),
}

/// The mathematical value of a [`ModuleTreeError`].
pub enum ModuleTreeErrorView {
    DuplicateModule(Seq<char>),
    ModuleNotFound(Seq<char>),
}

impl ModuleTreeErrorView {
    /// The message of the error.
    pub open spec fn message(self) -> Seq<char> {
        match self {
            ModuleTreeErrorView::DuplicateModule(path) => "Failed to build module tree. The module '"@
                + path + "' is defined more than once."@,
            ModuleTreeErrorView::ModuleNotFound(path) => "Module '"@ + path + "' not found."@,
        }
    }
}

impl View for ModuleTreeError {
    type V = ModuleTreeErrorView;

    open spec fn view(&self) -> ModuleTreeErrorView {
        match self {
            ModuleTreeError::DuplicateModule(path) => ModuleTreeErrorView::DuplicateModule(path@),
            ModuleTreeError::ModuleNotFound(path) => ModuleTreeErrorView::ModuleNotFound(path@),
        }
    }
}

impl ModuleTreeError {
    /// The message of the error.
    pub fn message(&self) -> (r: String)
        ensures
            r@ == self@.message(),
    {
        match self {
            ModuleTreeError::DuplicateModule(path) => {
                let mut r = String::from_str("Failed to build module tree. The module '");
                r.append(path.as_str());
                r.append("' is defined more than once.");
                r
            },
            ModuleTreeError::ModuleNotFound(path) => {
                let mut r = String::from_str("Module '");
                r.append(path.as_str());
                r.append("' not found.");
                r
            },
        }
    }
}

/// Whether `prefix` is a prefix of `full_path` that ends where a segment
/// of `full_path` ends: at a `.` or at the end of the path.
pub open spec fn is_module_prefix_spec(prefix: Seq<char>, full_path: Seq<char>) -> bool {
    &&& prefix.len() <= full_path.len()
    &&& full_path.take(prefix.len() as int) == prefix
    &&& (prefix.len() == full_path.len() || full_path[prefix.len() as int] == '.')
}

/// The node that `tree` holds for the longest segment-aligned prefix of
/// `path` among the prefixes of at most `k` characters, if it holds one.
pub open spec fn nearest_within(
    tree: Map<Seq<char>, ModuleNodeView>,
    path: Seq<char>,
    k: int,
) -> Option<ModuleNodeView>
    decreases k + 1,
{
    if k < 0 || k > path.len() {
        None
    } else if tree.dom().contains(path.take(k)) && is_module_prefix_spec(path.take(k), path) {
        Some(tree[path.take(k)])
    } else {
        nearest_within(tree, path, k - 1)
    }
}

/// The nearest module of `path`: the node that `tree` holds for the
/// longest segment-aligned prefix of `path`, if it holds one.
pub open spec fn nearest(tree: Map<Seq<char>, ModuleNodeView>, path: Seq<char>) -> Option<
    ModuleNodeView,
> {
    nearest_within(tree, path, path.len() as int)
}

/// Whether each node of `tree` is filed under its own path.
pub open spec fn keyed_by_path(tree: Map<Seq<char>, ModuleNodeView>) -> bool {
    forall|p: Seq<char>| #[trigger] tree.dom().contains(p) ==> tree[p].full_path == p
}

/// What `nearest_within` returns, said without recursion.
pub proof fn lemma_nearest_within(tree: Map<Seq<char>, ModuleNodeView>, path: Seq<char>, k: int)
    requires
        k <= path.len(),
    ensures
        match nearest_within(tree, path, k) {
            Some(node) => exists|j: int|
                {
                    &&& 0 <= j <= k
                    &&& #[trigger] tree.dom().contains(path.take(j))
                    &&& is_module_prefix_spec(path.take(j), path)
                    &&& node == tree[path.take(j)]
                    &&& forall|i: int|
                        j < i <= k && is_module_prefix_spec(path.take(i), path)
                            ==> !#[trigger] tree.dom().contains(path.take(i))
                },
            None => forall|i: int|
                0 <= i <= k && is_module_prefix_spec(path.take(i), path)
                    ==> !#[trigger] tree.dom().contains(path.take(i)),
        },
    decreases k + 1,
{
    if k < 0 {
    } else if tree.dom().contains(path.take(k)) && is_module_prefix_spec(path.take(k), path) {
    } else {
        lemma_nearest_within(tree, path, k - 1);
        match nearest_within(tree, path, k - 1) {
            Some(node) => {
                let j = choose|j: int|
                    {
                        &&& 0 <= j <= k - 1
                        &&& #[trigger] tree.dom().contains(path.take(j))
                        &&& is_module_prefix_spec(path.take(j), path)
                        &&& node == tree[path.take(j)]
                        &&& forall|i: int|
                            j < i <= k - 1 && is_module_prefix_spec(path.take(i), path)
                                ==> !#[trigger] tree.dom().contains(path.take(i))
                    };
                assert(tree.dom().contains(path.take(j)));
            },
            None => {},
        }
    }
}

/// A segment-aligned prefix of `path` is `path` cut at its own length.
pub proof fn lemma_prefix_is_take(prefix: Seq<char>, path: Seq<char>)
    requires
        is_module_prefix_spec(prefix, path),
    ensures
        prefix == path.take(prefix.len() as int),
        0 <= prefix.len() <= path.len(),
{
}

/// The nearest module is the module of the longest enclosing prefix: if
/// `module` is in the tree and is a segment-aligned prefix of `path`, the
/// nearest module of `path` exists, is in the tree, is itself a
/// segment-aligned prefix of `path`, and is at least as long as `module`.
pub proof fn lemma_nearest_is_longest_prefix(
    tree: Map<Seq<char>, ModuleNodeView>,
    path: Seq<char>,
    module: Seq<char>,
)
    requires
        keyed_by_path(tree),
        tree.dom().contains(module),
        is_module_prefix_spec(module, path),
    ensures
        nearest(tree, path) is Some,
        tree.dom().contains(nearest(tree, path)->0.full_path),
        tree[nearest(tree, path)->0.full_path] == nearest(tree, path)->0,
        is_module_prefix_spec(nearest(tree, path)->0.full_path, path),
        nearest(tree, path)->0.full_path.len() >= module.len(),
{
    lemma_nearest_within(tree, path, path.len() as int);
    lemma_prefix_is_take(module, path);
    assert(tree.dom().contains(path.take(module.len() as int)));
}

/// Where no module of the tree is a segment-aligned prefix of `path`, the
/// path has no nearest module; and where it has one, that module is a
/// segment-aligned prefix of `path` that the tree holds.
pub proof fn lemma_nearest_is_a_prefix(tree: Map<Seq<char>, ModuleNodeView>, path: Seq<char>)
    requires
        keyed_by_path(tree),
    ensures
        match nearest(tree, path) {
            Some(node) => {
                &&& tree.dom().contains(node.full_path)
                &&& tree[node.full_path] == node
                &&& is_module_prefix_spec(node.full_path, path)
            },
            None => forall|module: Seq<char>| #[trigger]
                tree.dom().contains(module) ==> !is_module_prefix_spec(module, path),
        },
{
    lemma_nearest_within(tree, path, path.len() as int);
    if nearest(tree, path) is None {
        assert forall|module: Seq<char>| #[trigger]
            tree.dom().contains(module) implies !is_module_prefix_spec(module, path) by {
            if is_module_prefix_spec(module, path) {
                lemma_prefix_is_take(module, path);
                assert(tree.dom().contains(path.take(module.len() as int)));
            }
        }
    }
}

/// The module of the longest enclosing prefix is the nearest module: if
/// `module` is in the tree, is a segment-aligned prefix of `path`, and no
/// longer module of the tree is one, then it is the nearest module.
pub proof fn lemma_longest_prefix_is_nearest(
    tree: Map<Seq<char>, ModuleNodeView>,
    path: Seq<char>,
    module: Seq<char>,
)
    requires
        tree.dom().contains(module),
        is_module_prefix_spec(module, path),
        forall|other: Seq<char>|
            #[trigger] tree.dom().contains(other) && is_module_prefix_spec(other, path)
                ==> other.len() <= module.len(),
    ensures
        nearest(tree, path) == Some(tree[module]),
{
    lemma_nearest_within(tree, path, path.len() as int);
    lemma_prefix_is_take(module, path);
    let m = module.len() as int;
    assert(tree.dom().contains(path.take(m)));
    match nearest(tree, path) {
        Some(node) => {
            let j = choose|j: int|
                {
                    &&& 0 <= j <= path.len()
                    &&& #[trigger] tree.dom().contains(path.take(j))
                    &&& is_module_prefix_spec(path.take(j), path)
                    &&& node == tree[path.take(j)]
                    &&& forall|i: int|
                        j < i <= path.len() && is_module_prefix_spec(path.take(i), path)
                            ==> !#[trigger] tree.dom().contains(path.take(i))
                };
            assert(path.take(j).len() == j);
            assert(j <= m);
            assert(j == m);
        },
        None => {},
    }
}

/// Whether `prefix` is a segment-aligned prefix of `full_path`.
pub fn chars_is_module_prefix(prefix: &Vec<char>, full_path: &Vec<char>) -> (r: bool)
    ensures
        r == is_module_prefix_spec(prefix@, full_path@),
{
    if prefix.len() > full_path.len() {
        return false;
    }
    let mut i: usize = 0;
    while i < prefix.len()
        invariant
            i <= prefix.len(),
            prefix.len() <= full_path.len(),
            full_path@.take(i as int) == prefix@.take(i as int),
        decreases prefix.len() - i,
    {
        if prefix[i] != full_path[i] {
            assert(full_path@.take(prefix.len() as int)[i as int] != prefix@[i as int]);
            return false;
        }
        assert(full_path@.take(i + 1) =~= full_path@.take(i as int).push(full_path@[i as int]));
        assert(prefix@.take(i + 1) =~= prefix@.take(i as int).push(prefix@[i as int]));
        i += 1;
    }
    assert(prefix@.take(i as int) =~= prefix@);
    full_path.len() == prefix.len() || full_path[prefix.len()] == '.'
}

/// Whether `prefix` is a prefix of `full_path` that ends at a segment
/// boundary, so that `pkg.sub` encloses `pkg.sub.x` but not
/// `pkg.submodule`.
pub fn is_module_prefix(prefix: &str, full_path: &str) -> (r: bool)
    ensures
        r == is_module_prefix_spec(prefix@, full_path@),
{
    let p = str_chars(prefix);
    let f = str_chars(full_path);
    chars_is_module_prefix(&p, &f)
}

/// The module tree: the configured modules of a project, each filed
/// under its dotted path.
///
/// Its value is the map from each path to the node of that path, so
/// nothing that is stated of a tree depends on the order of insertion.
pub struct ModuleTree {
    nodes: Vec<ModuleNode>,
    paths: Vec<Vec<char>>,
}

impl View for ModuleTree {
    type V = Map<Seq<char>, ModuleNodeView>;

    closed spec fn view(&self) -> Map<Seq<char>, ModuleNodeView> {
        Map::new(
            |p: Seq<char>| self.holds(p),
            |p: Seq<char>| self.nodes@[self.index_of(p)]@,
        )
    }
}

impl ModuleTree {
    spec fn holds_at(&self, p: Seq<char>, i: int) -> bool {
        0 <= i < self.nodes@.len() && self.nodes@[i].full_path@ == p
    }

    spec fn holds(&self, p: Seq<char>) -> bool {
        exists|i: int| self.holds_at(p, i)
    }

    spec fn index_of(&self, p: Seq<char>) -> int {
        choose|i: int| self.holds_at(p, i)
    }

    #[verifier::type_invariant]
    spec fn well_formed(&self) -> bool {
        &&& self.paths@.len() == self.nodes@.len()
        &&& forall|i: int|
            0 <= i < self.nodes@.len() ==> (#[trigger] self.paths@[i])@
                == self.nodes@[i].full_path@
        &&& forall|i: int, j: int|
            0 <= i < j < self.nodes@.len() ==> (#[trigger] self.nodes@[i]).full_path@ != (
            #[trigger] self.nodes@[j]).full_path@
    }

    /// Each node of a tree is filed under its own path.
    pub proof fn lemma_keyed_by_path(&self)
        ensures
            keyed_by_path(self@),
    {
        assert forall|p: Seq<char>| #[trigger] self@.dom().contains(p) implies self@[p].full_path
            == p by {
            assert(self.holds_at(p, self.index_of(p)));
        }
    }

    /// A tree of no modules.
    pub fn new() -> (tree: ModuleTree)
        ensures
            tree@ == Map::<Seq<char>, ModuleNodeView>::empty(),
    {
        let tree = ModuleTree { nodes: Vec::new(), paths: Vec::new() };
        assert(tree@ =~= Map::<Seq<char>, ModuleNodeView>::empty());
        tree
    }

    /// The number of modules in the tree.
    pub fn len(&self) -> (n: usize)
        ensures
            n == self@.dom().len(),
            self@.dom().finite(),
    {
        proof {
            use_type_invariant(self);
            self.lemma_dom_len(self.nodes@.len() as int);
            assert(self.dom_upto(self.nodes@.len() as int) =~= self@.dom());
        }
        self.nodes.len()
    }

    spec fn dom_upto(&self, n: int) -> Set<Seq<char>> {
        Set::new(|p: Seq<char>| exists|i: int| 0 <= i < n && self.holds_at(p, i))
    }

    proof fn lemma_dom_len(&self, n: int)
        requires
            self.well_formed(),
            0 <= n <= self.nodes@.len(),
        ensures
            self.dom_upto(n).finite(),
            self.dom_upto(n).len() == n,
        decreases n,
    {
        if n == 0 {
            assert(self.dom_upto(0) =~= Set::<Seq<char>>::empty());
        } else {
            self.lemma_dom_len(n - 1);
            let p = self.nodes@[n - 1].full_path@;
            assert(self.holds_at(p, n - 1));
            assert(self.dom_upto(n) =~= self.dom_upto(n - 1).insert(p)) by {
                assert forall|q: Seq<char>| self.dom_upto(n).contains(q) implies self.dom_upto(
                    n - 1,
                ).insert(p).contains(q) by {
                    let i = choose|i: int| 0 <= i < n && self.holds_at(q, i);
                    if i < n - 1 {
                        assert(0 <= i < n - 1 && self.holds_at(q, i));
                    }
                }
                assert forall|q: Seq<char>| self.dom_upto(n - 1).insert(p).contains(
                    q,
                ) implies self.dom_upto(n).contains(q) by {
                    if q == p {
                        assert(0 <= n - 1 < n && self.holds_at(q, n - 1));
                    } else {
                        let i = choose|i: int| 0 <= i < n - 1 && self.holds_at(q, i);
                        assert(0 <= i < n && self.holds_at(q, i));
                    }
                }
            }
            assert(!self.dom_upto(n - 1).contains(p)) by {
                if self.dom_upto(n - 1).contains(p) {
                    let i = choose|i: int| 0 <= i < n - 1 && self.holds_at(p, i);
                    assert(self.nodes@[i].full_path@ == self.nodes@[n - 1].full_path@);
                }
            }
        }
    }

    /// The place of the node of path `path`, if the tree holds one.
    fn position(&self, path: &Vec<char>) -> (r: Option<usize>)
        ensures
            match r {
                Some(i) => self.holds_at(path@, i as int),
                None => !self.holds(path@),
            },
    {
        proof {
            use_type_invariant(self);
        }
        let mut i: usize = 0;
        while i < self.paths.len()
            invariant
                self.well_formed(),
                i <= self.paths.len(),
                forall|j: int| 0 <= j < i ==> !self.holds_at(path@, j),
            decreases self.paths.len() - i,
        {
            if chars_eq(&self.paths[i], path) {
                return Some(i);
            }
            i += 1;
        }
        None
    }

    /// Whether the tree holds a module of path `path`.
    pub fn contains(&self, path: &str) -> (r: bool)
        ensures
            r == self@.dom().contains(path@),
    {
        let chars = str_chars(path);
        self.position(&chars).is_some()
    }

    /// The node of path `path`, if the tree holds one.
    pub fn get(&self, path: &str) -> (r: Option<&ModuleNode>)
        ensures
            match r {
                Some(node) => self@.dom().contains(path@) && self@[path@] == node@,
                None => !self@.dom().contains(path@),
            },
    {
        proof {
            use_type_invariant(self);
        }
        let chars = str_chars(path);
        match self.position(&chars) {
            Some(i) => {
                proof {
                    self.lemma_index_of(path@, i as int);
                }
                Some(&self.nodes[i])
            },
            None => None,
        }
    }

    proof fn lemma_index_of(&self, p: Seq<char>, i: int)
        requires
            self.well_formed(),
            self.holds_at(p, i),
        ensures
            self.index_of(p) == i,
            self@.dom().contains(p),
            self@[p] == self.nodes@[i]@,
    {
        let k = self.index_of(p);
        assert(self.holds_at(p, k));
        if k < i {
            assert(self.nodes@[k].full_path@ == self.nodes@[i].full_path@);
        } else if i < k {
            assert(self.nodes@[i].full_path@ == self.nodes@[k].full_path@);
        }
    }

    /// Files a module under the path of its configuration.
    ///
    /// Fails, and leaves the tree as it was, if the tree holds a module
    /// of that path already.
    pub fn insert(&mut self, config: ModuleConfig) -> (r: Result<(), ModuleTreeError>)
        ensures
            match r {
                Ok(()) => {
                    &&& !old(self)@.dom().contains(config.path@)
                    &&& final(self)@ == old(self)@.insert(config.path@, node_of(config@))
                },
                Err(e) => {
                    &&& old(self)@.dom().contains(config.path@)
                    &&& final(self)@ == old(self)@
                    &&& e@ == ModuleTreeErrorView::DuplicateModule(config.path@)
                },
            },
    {
        proof {
            use_type_invariant(&*self);
        }
        let chars = str_chars(config.path.as_str());
        if self.position(&chars).is_some() {
            return Err(ModuleTreeError::DuplicateModule(config.path));
        }
        let node = ModuleNode {
            full_path: config.path.clone(),
            interface_members: clone_strings(&config.interface_members),
            config: Some(config),
        };
        let ghost before = *self;
        let ghost p = node.full_path@;
        let mut taken = ModuleTree { nodes: Vec::new(), paths: Vec::new() };
        std::mem::swap(self, &mut taken);
        let ModuleTree { mut nodes, mut paths } = taken;
        nodes.push(node);
        paths.push(chars);
        proof {
            assert(before.well_formed());
            assert forall|i: int| 0 <= i < before.nodes@.len() implies (
            #[trigger] nodes@[i]).full_path@ != p by {
                assert(!before.holds_at(p, i));
            }
        }
        *self = ModuleTree { nodes, paths };
        proof {
            let n = before.nodes@.len() as int;
            assert(self.holds_at(p, n));
            assert forall|q: Seq<char>| self.holds(q) <==> (q == p || before.holds(q)) by {
                if self.holds(q) {
                    let i = choose|i: int| self.holds_at(q, i);
                    if i < n {
                        assert(before.holds_at(q, i));
                    }
                }
                if before.holds(q) {
                    let i = choose|i: int| before.holds_at(q, i);
                    assert(self.holds_at(q, i));
                }
            }
            assert forall|q: Seq<char>| before.holds(q) implies #[trigger] self.nodes@[self.index_of(
                q,
            )]@ == before.nodes@[before.index_of(q)]@ by {
                let i = before.index_of(q);
                assert(before.holds_at(q, i));
                assert(self.holds_at(q, i));
                self.lemma_index_of(q, i);
            }
            self.lemma_index_of(p, n);
            assert(self@ =~= before@.insert(p, node_of(config@)));
        }
        Ok(())
    }

    /// The nearest module of `path`: the node of the longest prefix of
    /// `path` that ends at a segment boundary and is a module of the
    /// tree. `None` if no module of the tree encloses `path`.
    pub fn find_nearest(&self, path: &str) -> (r: Option<&ModuleNode>)
        ensures
            match r {
                Some(node) => nearest(self@, path@) == Some(node@),
                None => nearest(self@, path@) is None,
            },
    {
        proof {
            use_type_invariant(self);
        }
        let chars = str_chars(path);
        let mut best: Option<usize> = None;
        let mut i: usize = 0;
        while i < self.paths.len()
            invariant
                self.well_formed(),
                chars@ == path@,
                i <= self.paths.len(),
                match best {
                    Some(b) => {
                        &&& b < i
                        &&& is_module_prefix_spec(self.paths@[b as int]@, path@)
                        &&& forall|j: int|
                            0 <= j < i && is_module_prefix_spec(#[trigger] self.paths@[j]@, path@)
                                ==> self.paths@[j]@.len() <= self.paths@[b as int]@.len()
                    },
                    None => forall|j: int|
                        0 <= j < i ==> !is_module_prefix_spec(#[trigger] self.paths@[j]@, path@),
                },
            decreases self.paths.len() - i,
        {
            if chars_is_module_prefix(&self.paths[i], &chars) {
                let longer = match best {
                    Some(b) => self.paths[b].len() < self.paths[i].len(),
                    None => true,
                };
                if longer {
                    best = Some(i);
                }
            }
            i += 1;
        }
        match best {
            Some(b) => {
                proof {
                    let module = self.nodes@[b as int].full_path@;
                    self.lemma_index_of(module, b as int);
                    assert forall|other: Seq<char>|
                        #[trigger] self@.dom().contains(other) && is_module_prefix_spec(
                            other,
                            path@,
                        ) implies other.len() <= module.len() by {
                        let j = self.index_of(other);
                        assert(self.holds_at(other, j));
                        assert(self.paths@[j]@ == other);
                    }
                    lemma_longest_prefix_is_nearest(self@, path@, module);
                }
                Some(&self.nodes[b])
            },
            None => {
                proof {
                    self.lemma_keyed_by_path();
                    lemma_nearest_is_a_prefix(self@, path@);
                    if let Some(node) = nearest(self@, path@) {
                        let j = self.index_of(node.full_path);
                        assert(self.holds_at(node.full_path, j));
                        assert(self.paths@[j]@ == node.full_path);
                    }
                }
                None
            },
        }
    }
}

/// The node under which a module of configuration `config` is filed.
pub open spec fn node_of(config: ModuleConfigView) -> ModuleNodeView {
    ModuleNodeView {
        full_path: config.path,
        config: Some(config),
        interface_members: config.interface_members,
    }
}

/// A copy of each string of `v`, in order.
pub fn clone_strings(v: &Vec<String>) -> (r: Vec<String>)
    ensures
        texts(r@) == texts(v@),
{
    let mut r: Vec<String> = Vec::new();
    let mut i: usize = 0;
    while i < v.len()
        invariant
            i <= v.len(),
            r@.len() == i,
            forall|j: int| 0 <= j < i ==> (#[trigger] r@[j])@ == v@[j]@,
        decreases v.len() - i,
    {
        r.push(v[i].clone());
        i += 1;
    }
    assert(texts(r@) =~= texts(v@));
    r
}

/// The order of insertion does not matter: two modules of different
/// paths, filed in either order, leave the same tree.
pub proof fn lemma_insertion_order_is_irrelevant(
    tree: Map<Seq<char>, ModuleNodeView>,
    first: ModuleConfigView,
    second: ModuleConfigView,
)
    requires
        first.path != second.path,
    ensures
        tree.insert(first.path, node_of(first)).insert(second.path, node_of(second))
            == tree.insert(second.path, node_of(second)).insert(first.path, node_of(first)),
{
    assert(tree.insert(first.path, node_of(first)).insert(second.path, node_of(second))
        =~= tree.insert(second.path, node_of(second)).insert(first.path, node_of(first)));
}

} // verus!
