//! The logger tree: a trie over module path segments that finds the loggers
//! that apply to a module.
//!
//! A logger applies to the module it is registered at. A logger marked
//! `always_execute` applies to every module below its own as well. Where a
//! path leaves the tree, the walk stops at the last node it reached, and of
//! that node only the loggers marked `always_execute` apply. The loggers at
//! the root are the defaults: all of them apply to a module whose first
//! segment the tree does not know.
//!
//! The result lists the loggers of the deepest node first and those of the
//! root last; loggers of one node keep the order in which they were added.
//! Looking a segment up ignores ASCII case and takes the first child that
//! matches; adding a logger compares segments exactly.

use vstd::prelude::*;
use crate::loggers::Logger;
use crate::text::{ascii_folded, same_text, split, texts};

verus! {

pub struct LoggerTree<P, T> {
    /// The default loggers.
    pub loggers: Vec<Logger<P, T>>,
    pub children: Vec<TreeNode<P, T>>,
}

pub struct TreeNode<P, T> {
    /// The path segment of the node.
    pub module: String,
    /// The loggers registered at exactly this node, in the order of their
    /// registration.
    pub loggers: Vec<Logger<P, T>>,
    pub children: Vec<TreeNode<P, T>>,
}

/// The mathematical content of a node.
pub struct NodeView<P, T> {
    pub module: Seq<char>,
    pub loggers: Seq<Logger<P, T>>,
    pub children: Seq<NodeView<P, T>>,
}

/// The mathematical content of a tree.
pub struct TreeView<P, T> {
    pub loggers: Seq<Logger<P, T>>,
    pub children: Seq<NodeView<P, T>>,
}

/// The loggers among `loggers` that cascade to the modules below.
pub open spec fn cascading<P, T>(loggers: Seq<Logger<P, T>>) -> Seq<Logger<P, T>> {
    loggers.filter(|logger: Logger<P, T>| logger.always_execute)
}

/// Whether a node answers to `segment` in a lookup.
pub open spec fn answers<P, T>(node: NodeView<P, T>, segment: Seq<char>) -> bool {
    ascii_folded(node.module) == ascii_folded(segment)
}

/// The first child that answers to `segment`.
pub open spec fn child_for<P, T>(children: Seq<NodeView<P, T>>, segment: Seq<char>) -> Option<int>
    decreases children.len(),
{
    if children.len() == 0 {
        None
    } else if answers(children[0], segment) {
        Some(0)
    } else {
        match child_for(children.drop_first(), segment) {
            Some(i) => Some(i + 1),
            None => None,
        }
    }
}

/// The first child whose segment is exactly `segment`.
pub open spec fn child_named<P, T>(children: Seq<NodeView<P, T>>, segment: Seq<char>) -> Option<
    int,
>
    decreases children.len(),
{
    if children.len() == 0 {
        None
    } else if children[0].module == segment {
        Some(0)
    } else {
        match child_named(children.drop_first(), segment) {
            Some(i) => Some(i + 1),
            None => None,
        }
    }
}

/// A node for `segment` without loggers or children.
pub open spec fn leaf<P, T>(segment: Seq<char>) -> NodeView<P, T> {
    NodeView { module: segment, loggers: Seq::empty(), children: Seq::empty() }
}

/// The children after a logger was added below them at `path`, which is not
/// empty: it goes into the child named by the first segment, which is
/// created last among the children if it is not there yet.
pub open spec fn children_with<P, T>(
    children: Seq<NodeView<P, T>>,
    path: Seq<Seq<char>>,
    logger: Logger<P, T>,
) -> Seq<NodeView<P, T>>
    decreases path.len(), 0int,
{
    if path.len() == 0 {
        children
    } else {
        match child_named(children, path[0]) {
            Some(i) => if 0 <= i < children.len() {
                children.update(i, children[i].inserted(path.drop_first(), logger))
            } else {
                children
            },
            None => children.push(leaf::<P, T>(path[0]).inserted(path.drop_first(), logger)),
        }
    }
}

/// The loggers that apply to `path` among the children of a node: those of
/// the child that the first segment leads to, if there is one.
pub open spec fn resolve_below<P, T>(children: Seq<NodeView<P, T>>, path: Seq<Seq<char>>) -> Option<
    Seq<Logger<P, T>>,
>
    decreases path.len(), 0int,
{
    if path.len() == 0 {
        None
    } else {
        match child_for(children, path[0]) {
            Some(i) => if 0 <= i < children.len() {
                Some(children[i].resolve(path.drop_first()))
            } else {
                None
            },
            None => None,
        }
    }
}

impl<P, T> NodeView<P, T> {
    /// The loggers that apply to the module that `path` leads to from this
    /// node. At the end of the path all loggers of the node apply. Further up,
    /// and where the path leaves the tree, only the cascading ones do, after
    /// those found below.
    pub open spec fn resolve(self, path: Seq<Seq<char>>) -> Seq<Logger<P, T>>
        decreases path.len(), 1int,
    {
        if path.len() == 0 {
            self.loggers
        } else {
            match resolve_below(self.children, path) {
                Some(found) => found + cascading(self.loggers),
                None => cascading(self.loggers),
            }
        }
    }

    /// The node after `logger` was added at `path` below it.
    pub open spec fn inserted(self, path: Seq<Seq<char>>, logger: Logger<P, T>) -> NodeView<P, T>
        decreases path.len(), 1int,
    {
        if path.len() == 0 {
            NodeView { loggers: self.loggers.push(logger), ..self }
        } else {
            NodeView { children: children_with(self.children, path, logger), ..self }
        }
    }
}

impl<P, T> TreeView<P, T> {
    /// The loggers that apply to the module at `path`: with a first segment
    /// that the tree knows, those found below and then the cascading
    /// defaults; all defaults otherwise.
    pub open spec fn resolve(self, path: Seq<Seq<char>>) -> Seq<Logger<P, T>> {
        match resolve_below(self.children, path) {
            Some(found) => found + cascading(self.loggers),
            None => self.loggers,
        }
    }

    /// The tree after `logger` was added at `path`.
    pub open spec fn inserted(self, path: Seq<Seq<char>>, logger: Logger<P, T>) -> TreeView<P, T> {
        TreeView { children: children_with(self.children, path, logger), ..self }
    }
}

impl<P, T> TreeNode<P, T> {
    /// The content of the node.
    pub open spec fn model(&self) -> NodeView<P, T>
        decreases self,
    {
        NodeView {
            module: self.module@,
            loggers: self.loggers@,
            children: models(self.children@),
        }
    }
}

/// The contents of a list of nodes, in order.
pub open spec fn models<P, T>(nodes: Seq<TreeNode<P, T>>) -> Seq<NodeView<P, T>>
    decreases nodes,
{
    if nodes.len() == 0 {
        Seq::empty()
    } else {
        models(nodes.drop_last()).push(nodes.last().model())
    }
}

impl<P, T> View for TreeNode<P, T> {
    type V = NodeView<P, T>;

    open spec fn view(&self) -> NodeView<P, T> {
        self.model()
    }
}

impl<P, T> View for LoggerTree<P, T> {
    type V = TreeView<P, T>;

    open spec fn view(&self) -> TreeView<P, T> {
        TreeView { loggers: self.loggers@, children: models(self.children@) }
    }
}

/// `models` keeps length and order.
pub proof fn lemma_models<P, T>(nodes: Seq<TreeNode<P, T>>)
    ensures
        models(nodes).len() == nodes.len(),
        forall|i: int| 0 <= i < nodes.len() ==> (#[trigger] models(nodes)[i]) == nodes[i]@,
    decreases nodes.len(),
{
    if nodes.len() > 0 {
        lemma_models(nodes.drop_last());
    }
}

/// `child_for` gives the first index that answers.
pub proof fn lemma_child_for<P, T>(children: Seq<NodeView<P, T>>, segment: Seq<char>)
    ensures
        match child_for(children, segment) {
            Some(i) => 0 <= i < children.len() && answers(children[i], segment) && forall|j: int|
                0 <= j < i ==> !answers(#[trigger] children[j], segment),
            None => forall|j: int|
                0 <= j < children.len() ==> !answers(#[trigger] children[j], segment),
        },
    decreases children.len(),
{
    if children.len() > 0 && !answers(children[0], segment) {
        let rest = children.drop_first();
        lemma_child_for(rest, segment);
        match child_for(rest, segment) {
            Some(i) => {
                assert forall|j: int| 0 <= j < i + 1 implies !answers(
                    #[trigger] children[j],
                    segment,
                ) by {
                    if j > 0 {
                        assert(children[j] == rest[j - 1]);
                    }
                }
            },
            None => {
                assert forall|j: int| 0 <= j < children.len() implies !answers(
                    #[trigger] children[j],
                    segment,
                ) by {
                    if j > 0 {
                        assert(children[j] == rest[j - 1]);
                    }
                }
            },
        }
    }
}

/// `child_named` gives the first index of that name.
pub proof fn lemma_child_named<P, T>(children: Seq<NodeView<P, T>>, segment: Seq<char>)
    ensures
        match child_named(children, segment) {
            Some(i) => 0 <= i < children.len() && children[i].module == segment && forall|j: int|
                0 <= j < i ==> (#[trigger] children[j]).module != segment,
            None => forall|j: int|
                0 <= j < children.len() ==> (#[trigger] children[j]).module != segment,
        },
    decreases children.len(),
{
    if children.len() > 0 && children[0].module != segment {
        let rest = children.drop_first();
        lemma_child_named(rest, segment);
        match child_named(rest, segment) {
            Some(i) => {
                assert forall|j: int| 0 <= j < i + 1 implies (#[trigger] children[j]).module
                    != segment by {
                    if j > 0 {
                        assert(children[j] == rest[j - 1]);
                    }
                }
            },
            None => {
                assert forall|j: int| 0 <= j < children.len() implies (#[trigger] children[j]).module
                    != segment by {
                    if j > 0 {
                        assert(children[j] == rest[j - 1]);
                    }
                }
            },
        }
    }
}

/// The loggers that a list of references points to.
pub open spec fn loggers_of<P, T>(found: Seq<&Logger<P, T>>) -> Seq<Logger<P, T>> {
    found.map_values(|logger: &Logger<P, T>| *logger)
}

/// Adds references to all of `loggers` to `out`.
fn append_all<'a, P, T>(out: &mut Vec<&'a Logger<P, T>>, loggers: &'a Vec<Logger<P, T>>)
    ensures
        loggers_of(final(out)@) == loggers_of(old(out)@) + loggers@,
{
    let ghost base = loggers_of(out@);
    let mut i: usize = 0;
    assert(loggers@.take(0) =~= Seq::empty());
    assert(base + Seq::<Logger<P, T>>::empty() =~= base);
    while i < loggers.len()
        invariant
            i <= loggers.len(),
            loggers_of(out@) == base + loggers@.take(i as int),
        decreases loggers.len() - i,
    {
        let ghost before = out@;
        out.push(&loggers[i]);
        assert(loggers_of(out@) =~= loggers_of(before).push(loggers@[i as int]));
        assert(loggers@.take(i + 1) =~= loggers@.take(i as int).push(loggers@[i as int]));
        assert(base + loggers@.take(i + 1) =~= (base + loggers@.take(i as int)).push(
            loggers@[i as int],
        ));
        i += 1;
    }
    assert(loggers@.take(i as int) =~= loggers@);
}

/// Adds references to the cascading loggers among `loggers` to `out`.
fn append_cascading<'a, P, T>(out: &mut Vec<&'a Logger<P, T>>, loggers: &'a Vec<Logger<P, T>>)
    ensures
        loggers_of(final(out)@) == loggers_of(old(out)@) + cascading(loggers@),
{
    let ghost base = loggers_of(out@);
    let mut i: usize = 0;
    proof {
        reveal(Seq::filter);
        assert(loggers@.take(0) =~= Seq::empty());
        assert(base + cascading(loggers@.take(0)) =~= base);
    }
    while i < loggers.len()
        invariant
            i <= loggers.len(),
            loggers_of(out@) == base + cascading(loggers@.take(i as int)),
        decreases loggers.len() - i,
    {
        let ghost before = out@;
        proof {
            reveal(Seq::filter);
            let upto = loggers@.take(i + 1);
            assert(upto.drop_last() =~= loggers@.take(i as int));
            assert(upto.last() == loggers@[i as int]);
        }
        if loggers[i].always_execute {
            out.push(&loggers[i]);
            assert(loggers_of(out@) =~= loggers_of(before).push(loggers@[i as int]));
            assert(base + cascading(loggers@.take(i + 1)) =~= (base + cascading(
                loggers@.take(i as int),
            )).push(loggers@[i as int]));
        }
        i += 1;
    }
    assert(loggers@.take(i as int) =~= loggers@);
}

/// The first of `children` that answers to `segment`, ignoring ASCII case.
fn find_child<P, T>(children: &Vec<TreeNode<P, T>>, segment: &str) -> (out: Option<usize>)
    ensures
        match out {
            Some(i) => i < children@.len() && child_for(models(children@), segment@) == Some(
                i as int,
            ),
            None => child_for(models(children@), segment@) is None,
        },
{
    proof {
        lemma_models(children@);
        lemma_child_for(models(children@), segment@);
    }
    let mut i: usize = 0;
    while i < children.len()
        invariant
            i <= children.len(),
            forall|j: int| 0 <= j < i ==> !answers(#[trigger] models(children@)[j], segment@),
            models(children@).len() == children@.len(),
            forall|j: int|
                0 <= j < children@.len() ==> (#[trigger] models(children@)[j]) == children@[j]@,
            match child_for(models(children@), segment@) {
                Some(k) => 0 <= k < children@.len() && answers(models(children@)[k], segment@)
                    && forall|j: int|
                    0 <= j < k ==> !answers(#[trigger] models(children@)[j], segment@),
                None => forall|j: int|
                    0 <= j < children@.len() ==> !answers(
                        #[trigger] models(children@)[j],
                        segment@,
                    ),
            },
        decreases children.len() - i,
    {
        if children[i].module.as_str().eq_ignore_ascii_case(segment) {
            assert(answers(models(children@)[i as int], segment@));
            return Some(i);
        }
        i += 1;
    }
    None
}

/// The first of `children` whose segment is exactly `segment`.
fn find_named<P, T>(children: &Vec<TreeNode<P, T>>, segment: &str) -> (out: Option<usize>)
    ensures
        match out {
            Some(i) => i < children@.len() && child_named(models(children@), segment@) == Some(
                i as int,
            ),
            None => child_named(models(children@), segment@) is None,
        },
{
    proof {
        lemma_models(children@);
        lemma_child_named(models(children@), segment@);
    }
    let mut i: usize = 0;
    while i < children.len()
        invariant
            i <= children.len(),
            forall|j: int| 0 <= j < i ==> (#[trigger] models(children@)[j]).module != segment@,
            models(children@).len() == children@.len(),
            forall|j: int|
                0 <= j < children@.len() ==> (#[trigger] models(children@)[j]) == children@[j]@,
            match child_named(models(children@), segment@) {
                Some(k) => 0 <= k < children@.len() && models(children@)[k].module == segment@
                    && forall|j: int|
                    0 <= j < k ==> (#[trigger] models(children@)[j]).module != segment@,
                None => forall|j: int|
                    0 <= j < children@.len() ==> (#[trigger] models(children@)[j]).module
                        != segment@,
            },
        decreases children.len() - i,
    {
        if same_text(children[i].module.as_str(), segment) {
            assert(models(children@)[i as int].module == segment@);
            return Some(i);
        }
        i += 1;
    }
    None
}

impl<P, T> TreeNode<P, T> {
    /// The loggers that apply to the module that `path` leads to from this
    /// node.
    pub fn find_logger<'a>(&'a self, path: &Vec<String>) -> (out: Option<Vec<&'a Logger<P, T>>>)
        ensures
            out matches Some(found) && loggers_of(found@) == self@.resolve(texts(path@)),
    {
        assert(texts(path@).skip(0) =~= texts(path@));
        Some(self.find_from(path, 0))
    }

    /// The loggers that apply to the module that the segments of `path` from
    /// index `from` on lead to.
    pub fn find_from<'a>(&'a self, path: &Vec<String>, from: usize) -> (out: Vec<&'a Logger<P, T>>)
        requires
            from <= path@.len(),
        ensures
            loggers_of(out@) == self@.resolve(texts(path@).skip(from as int)),
        decreases path@.len() - from,
    {
        let ghost rest = texts(path@).skip(from as int);
        let mut out: Vec<&'a Logger<P, T>> = Vec::new();
        assert(loggers_of(out@) =~= Seq::empty());
        if from == path.len() {
            append_all(&mut out, &self.loggers);
            assert(Seq::<Logger<P, T>>::empty() + self.loggers@ =~= self.loggers@);
            return out;
        }
        assert(rest[0] == path@[from as int]@);
        assert(rest.drop_first() =~= texts(path@).skip(from + 1));
        match find_child(&self.children, path[from].as_str()) {
            Some(i) => {
                proof {
                    lemma_models(self.children@);
                }
                let mut found = self.children[i].find_from(path, from + 1);
                append_cascading(&mut found, &self.loggers);
                found
            },
            None => {
                append_cascading(&mut out, &self.loggers);
                assert(Seq::<Logger<P, T>>::empty() + cascading(self.loggers@) =~= cascading(
                    self.loggers@,
                ));
                out
            },
        }
    }

    /// Adds `logger` at `path` below this node, creating the nodes on the way
    /// that are not there yet.
    pub fn add_node_lookup(&mut self, logger: Logger<P, T>, path: &Vec<String>) -> (added: bool)
        ensures
            added,
            final(self)@ == old(self)@.inserted(texts(path@), logger),
    {
        assert(texts(path@).skip(0) =~= texts(path@));
        self.add_from(logger, path, 0)
    }

    /// Adds `logger` at the segments of `path` from index `from` on.
    pub fn add_from(&mut self, logger: Logger<P, T>, path: &Vec<String>, from: usize) -> (added: bool)
        requires
            from <= path@.len(),
        ensures
            added,
            final(self)@ == old(self)@.inserted(texts(path@).skip(from as int), logger),
        decreases path@.len() - from,
    {
        let ghost rest = texts(path@).skip(from as int);
        if from == path.len() {
            self.add_logger(logger);
            return true;
        }
        assert(rest[0] == path@[from as int]@);
        assert(rest.drop_first() =~= texts(path@).skip(from + 1));
        let ghost before = self.children@;
        proof {
            lemma_models(before);
        }
        let at = match find_named(&self.children, path[from].as_str()) {
            Some(i) => i,
            None => {
                let node = TreeNode {
                    module: path[from].clone(),
                    loggers: Vec::new(),
                    children: Vec::new(),
                };
                assert(node@ == leaf::<P, T>(rest[0])) by {
                    assert(models(node.children@) =~= Seq::empty());
                    assert(node.loggers@ =~= Seq::empty());
                }
                self.add_child(node);
                self.children.len() - 1
            },
        };
        let ghost middle = self.children@;
        let added = self.children[at].add_from(logger, path, from + 1);
        proof {
            let after = self.children@;
            lemma_models(middle);
            lemma_models(after);
            assert(models(after) =~= models(middle).update(at as int, after[at as int]@));
            if child_named(models(before), rest[0]) is None {
                assert(models(middle) =~= models(before).push(leaf::<P, T>(rest[0])));
                assert(models(after) =~= models(before).push(
                    leaf::<P, T>(rest[0]).inserted(rest.drop_first(), logger),
                ));
            }
        }
        added
    }

    fn add_logger(&mut self, logger: Logger<P, T>)
        ensures
            final(self)@ == (NodeView { loggers: old(self)@.loggers.push(logger), ..old(self)@ }),
    {
        self.loggers.push(logger);
    }

    fn add_child(&mut self, node: TreeNode<P, T>)
        ensures
            final(self).children@ == old(self).children@.push(node),
            final(self).loggers == old(self).loggers,
            final(self).module == old(self).module,
    {
        self.children.push(node);
    }
}

/// Whether looking up and adding agree along `path`: at every node on the
/// way, the child that answers to the segment is the child of exactly that
/// name, or there is neither. Two siblings whose segments differ in ASCII
/// case only can break it: the first of them answers for both.
pub open spec fn agrees<P, T>(children: Seq<NodeView<P, T>>, path: Seq<Seq<char>>) -> bool
    decreases path.len(),
{
    path.len() == 0 || (child_for(children, path[0]) == child_named(children, path[0]) && (
    match child_named(children, path[0]) {
        Some(i) => 0 <= i < children.len() && agrees(children[i].children, path.drop_first()),
        None => true,
    }))
}

/// The loggers registered at exactly `path` below these children.
pub open spec fn at_below<P, T>(children: Seq<NodeView<P, T>>, path: Seq<Seq<char>>) -> Seq<
    Logger<P, T>,
>
    decreases path.len(), 0int,
{
    if path.len() == 0 {
        Seq::empty()
    } else {
        match child_named(children, path[0]) {
            Some(i) => if 0 <= i < children.len() {
                children[i].at(path.drop_first())
            } else {
                Seq::empty()
            },
            None => Seq::empty(),
        }
    }
}

/// The cascading loggers of the nodes on the way to `path` below these
/// children, the node at `path` left out, the deepest first.
pub open spec fn above_below<P, T>(children: Seq<NodeView<P, T>>, path: Seq<Seq<char>>) -> Seq<
    Logger<P, T>,
>
    decreases path.len(), 0int,
{
    if path.len() == 0 {
        Seq::empty()
    } else {
        match child_named(children, path[0]) {
            Some(i) => if 0 <= i < children.len() {
                children[i].above(path.drop_first())
            } else {
                Seq::empty()
            },
            None => Seq::empty(),
        }
    }
}

impl<P, T> NodeView<P, T> {
    /// The loggers registered at exactly `path` below this node.
    pub open spec fn at(self, path: Seq<Seq<char>>) -> Seq<Logger<P, T>>
        decreases path.len(), 1int,
    {
        if path.len() == 0 {
            self.loggers
        } else {
            at_below(self.children, path)
        }
    }

    /// The cascading loggers of this node and of the nodes on the way to
    /// `path`, the node at `path` left out, the deepest first.
    pub open spec fn above(self, path: Seq<Seq<char>>) -> Seq<Logger<P, T>>
        decreases path.len(), 1int,
    {
        if path.len() == 0 {
            Seq::empty()
        } else {
            above_below(self.children, path) + cascading(self.loggers)
        }
    }
}

/// Nothing cascades from no loggers, and a logger added last cascades
/// exactly if it is marked to.
pub proof fn lemma_cascading<P, T>(loggers: Seq<Logger<P, T>>, logger: Logger<P, T>)
    ensures
        cascading(Seq::<Logger<P, T>>::empty()) == Seq::<Logger<P, T>>::empty(),
        cascading(loggers.push(logger)) == if logger.always_execute {
            cascading(loggers).push(logger)
        } else {
            cascading(loggers)
        },
{
    reveal(Seq::filter);
    assert(loggers.push(logger).drop_last() =~= loggers);
    assert(cascading(Seq::<Logger<P, T>>::empty()) =~= Seq::<Logger<P, T>>::empty());
}

/// The child that a first segment leads to once a logger was added at a path
/// that starts with it: the child of that name with the logger added below
/// it, or a new child where there was none. Looking up and naming agree on
/// it.
pub proof fn lemma_child_after_insert<P, T>(
    children: Seq<NodeView<P, T>>,
    path: Seq<Seq<char>>,
    logger: Logger<P, T>,
) -> (at: int)
    requires
        path.len() > 0,
        agrees(children, path),
    ensures
        child_for(children_with(children, path, logger), path[0]) == Some(at),
        child_named(children_with(children, path, logger), path[0]) == Some(at),
        0 <= at < children_with(children, path, logger).len(),
        children_with(children, path, logger)[at] == (match child_named(children, path[0]) {
            Some(i) => children[i],
            None => leaf::<P, T>(path[0]),
        }).inserted(path.drop_first(), logger),
        child_named(children, path[0]) matches Some(i) ==> at == i,
{
    let segment = path[0];
    let after = children_with(children, path, logger);
    lemma_child_for(children, segment);
    lemma_child_named(children, segment);
    lemma_child_for(after, segment);
    lemma_child_named(after, segment);
    let at = match child_named(children, segment) {
        Some(i) => i,
        None => children.len() as int,
    };
    assert(after[at].module == segment);
    assert(answers(after[at], segment));
    assert forall|j: int| 0 <= j < at implies !answers(#[trigger] after[j], segment)
        && after[j].module != segment by {
        assert(after[j] == children[j]);
    }
    at
}

/// After a logger was added at a path, the loggers that apply to the module
/// at that path are those that were registered there before, then the new
/// one, and then the cascading loggers from further up. So a logger is found
/// where it was added, and loggers of one module apply in the order of their
/// registration.
pub proof fn lemma_added_logger_is_found_below<P, T>(
    children: Seq<NodeView<P, T>>,
    path: Seq<Seq<char>>,
    logger: Logger<P, T>,
)
    requires
        path.len() > 0,
        agrees(children, path),
    ensures
        resolve_below(children_with(children, path, logger), path) == Some(
            at_below(children, path).push(logger) + above_below(children, path),
        ),
    decreases path.len(),
{
    let rest = path.drop_first();
    let after = children_with(children, path, logger);
    let at = lemma_child_after_insert(children, path, logger);
    let base = match child_named(children, path[0]) {
        Some(i) => children[i],
        None => leaf::<P, T>(path[0]),
    };
    lemma_child_named(Seq::<NodeView<P, T>>::empty(), path[0]);
    lemma_cascading(Seq::<Logger<P, T>>::empty(), logger);
    let found = base.inserted(rest, logger).resolve(rest);
    if rest.len() == 0 {
        assert(found =~= base.at(rest).push(logger) + base.above(rest));
    } else {
        lemma_child_for(Seq::<NodeView<P, T>>::empty(), rest[0]);
        lemma_child_named(Seq::<NodeView<P, T>>::empty(), rest[0]);
        lemma_added_logger_is_found_below(base.children, rest, logger);
        assert(found =~= base.at(rest).push(logger) + base.above(rest));
    }
    assert(at_below(children, path) =~= base.at(rest));
    assert(above_below(children, path) =~= base.above(rest));
}

/// A cascading logger applies to every module at or below the path that it
/// was added at.
pub proof fn lemma_cascading_logger_applies_below<P, T>(
    children: Seq<NodeView<P, T>>,
    path: Seq<Seq<char>>,
    further: Seq<Seq<char>>,
    logger: Logger<P, T>,
)
    requires
        path.len() > 0,
        agrees(children, path),
        logger.always_execute,
    ensures
        resolve_below(children_with(children, path, logger), path + further) matches Some(found)
            && found.contains(logger),
    decreases path.len(),
{
    let rest = path.drop_first();
    let longer = path + further;
    let at = lemma_child_after_insert(children, path, logger);
    let base = match child_named(children, path[0]) {
        Some(i) => children[i],
        None => leaf::<P, T>(path[0]),
    };
    assert(longer[0] == path[0]);
    assert(longer.drop_first() =~= rest + further);
    let node = base.inserted(rest, logger);
    let found = node.resolve(rest + further);
    if rest.len() == 0 {
        assert(rest + further =~= further);
        lemma_cascading(base.loggers, logger);
        let own = base.loggers.push(logger);
        assert(own[own.len() - 1] == logger);
        let cascade = cascading(own);
        assert(cascade[cascade.len() - 1] == logger);
        if further.len() > 0 {
            match resolve_below(node.children, further) {
                Some(deeper) => {
                    assert((deeper + cascade)[deeper.len() + cascade.len() - 1] == logger);
                },
                None => {},
            }
        }
    } else {
        lemma_child_for(Seq::<NodeView<P, T>>::empty(), rest[0]);
        lemma_child_named(Seq::<NodeView<P, T>>::empty(), rest[0]);
        lemma_cascading_logger_applies_below(base.children, rest, further, logger);
        let deeper = resolve_below(node.children, rest + further)->0;
        let i = choose|i: int| 0 <= i < deeper.len() && deeper[i] == logger;
        assert((deeper + cascading(node.loggers))[i] == logger);
    }
}

/// A logger that does not cascade changes nothing for the modules strictly
/// below the path that it was added at: it applies to its own module only.
pub proof fn lemma_plain_logger_is_unseen_below<P, T>(
    children: Seq<NodeView<P, T>>,
    path: Seq<Seq<char>>,
    further: Seq<Seq<char>>,
    logger: Logger<P, T>,
)
    requires
        path.len() > 0,
        further.len() > 0,
        agrees(children, path),
        !logger.always_execute,
    ensures
        resolve_below(children_with(children, path, logger), path + further) == Some(
            match resolve_below(children, path + further) {
                Some(found) => found,
                None => Seq::<Logger<P, T>>::empty(),
            },
        ),
    decreases path.len(),
{
    let rest = path.drop_first();
    let longer = path + further;
    let at = lemma_child_after_insert(children, path, logger);
    let base = match child_named(children, path[0]) {
        Some(i) => children[i],
        None => leaf::<P, T>(path[0]),
    };
    assert(longer[0] == path[0]);
    assert(longer.drop_first() =~= rest + further);
    lemma_child_for(children, path[0]);
    lemma_child_named(children, path[0]);
    let node = base.inserted(rest, logger);
    lemma_cascading(base.loggers, logger);
    lemma_child_for(Seq::<NodeView<P, T>>::empty(), (rest + further)[0]);
    if rest.len() == 0 {
        assert(rest + further =~= further);
        assert(node.resolve(further) == base.resolve(further));
    } else {
        lemma_child_for(Seq::<NodeView<P, T>>::empty(), rest[0]);
        lemma_child_named(Seq::<NodeView<P, T>>::empty(), rest[0]);
        lemma_plain_logger_is_unseen_below(base.children, rest, further, logger);
        match resolve_below(base.children, rest + further) {
            Some(deeper) => {},
            None => {
                assert(Seq::<Logger<P, T>>::empty() + cascading(base.loggers) =~= cascading(
                    base.loggers,
                ));
            },
        }
        assert(node.resolve(rest + further) == base.resolve(rest + further));
    }
    if child_named(children, path[0]) is None {
        assert(base.resolve(rest + further) =~= Seq::<Logger<P, T>>::empty());
    }
}

impl<P, T> TreeView<P, T> {
    /// The loggers registered at exactly `path`.
    pub open spec fn at(self, path: Seq<Seq<char>>) -> Seq<Logger<P, T>> {
        at_below(self.children, path)
    }

    /// The cascading loggers that apply to the module at `path` from above
    /// it: those of the nodes on the way, the deepest first, and then those
    /// among the defaults.
    pub open spec fn above(self, path: Seq<Seq<char>>) -> Seq<Logger<P, T>> {
        above_below(self.children, path) + cascading(self.loggers)
    }
}

/// In a tree, after a logger was added at a module path, the loggers that
/// apply to that module are those registered there before, in their order,
/// then the new one, and then the cascading loggers from above.
pub proof fn lemma_added_logger_is_found<P, T>(
    tree: TreeView<P, T>,
    path: Seq<Seq<char>>,
    logger: Logger<P, T>,
)
    requires
        path.len() > 0,
        agrees(tree.children, path),
    ensures
        tree.inserted(path, logger).resolve(path) == tree.at(path).push(logger) + tree.above(path),
        tree.inserted(path, logger).resolve(path).contains(logger),
{
    lemma_added_logger_is_found_below(tree.children, path, logger);
    let own = tree.at(path).push(logger);
    let found = own + tree.above(path);
    assert(tree.inserted(path, logger).resolve(path) =~= found);
    assert(found[own.len() - 1] == logger);
}

/// In a tree, a cascading logger applies to every module at or below the
/// module path that it was added at.
pub proof fn lemma_cascading_logger_applies<P, T>(
    tree: TreeView<P, T>,
    path: Seq<Seq<char>>,
    further: Seq<Seq<char>>,
    logger: Logger<P, T>,
)
    requires
        path.len() > 0,
        agrees(tree.children, path),
        logger.always_execute,
    ensures
        tree.inserted(path, logger).resolve(path + further).contains(logger),
{
    lemma_cascading_logger_applies_below(tree.children, path, further, logger);
    let after = tree.inserted(path, logger);
    let found = resolve_below(after.children, path + further)->0;
    let i = choose|i: int| 0 <= i < found.len() && found[i] == logger;
    assert((found + cascading(after.loggers))[i] == logger);
}

/// In a tree, a logger that does not cascade changes nothing for the modules
/// strictly below the module path that it was added at, provided that the
/// first segment of the path was known before.
pub proof fn lemma_plain_logger_is_unseen<P, T>(
    tree: TreeView<P, T>,
    path: Seq<Seq<char>>,
    further: Seq<Seq<char>>,
    logger: Logger<P, T>,
)
    requires
        path.len() > 0,
        further.len() > 0,
        agrees(tree.children, path),
        child_named(tree.children, path[0]) is Some,
        !logger.always_execute,
    ensures
        tree.inserted(path, logger).resolve(path + further) == tree.resolve(path + further),
{
    lemma_plain_logger_is_unseen_below(tree.children, path, further, logger);
    lemma_child_for(tree.children, path[0]);
    lemma_child_named(tree.children, path[0]);
    assert((path + further)[0] == path[0]);
}

/// The segments of a module path: the text between its `::`.
pub open spec fn segments(path: Seq<char>) -> Seq<Seq<char>> {
    crate::text::split_text(path, "::"@)
}

/// The tree with the default loggers `root` and nothing else.
pub open spec fn bare<P, T>(root: Seq<Logger<P, T>>) -> TreeView<P, T> {
    TreeView { loggers: root, children: Seq::empty() }
}

/// The tree that adding `loggers` to `tree` one by one gives, each at its own
/// module path. A logger without a module is passed over.
pub open spec fn grown<P, T>(tree: TreeView<P, T>, loggers: Seq<Logger<P, T>>) -> TreeView<P, T>
    decreases loggers.len(),
{
    if loggers.len() == 0 {
        tree
    } else {
        grown(
            match loggers[0].module {
                Some(module) => tree.inserted(segments(module@), loggers[0]),
                None => tree,
            },
            loggers.drop_first(),
        )
    }
}

impl<P, T> LoggerTree<P, T> {
    /// A tree with the default loggers `root` and every logger of `loggers`
    /// at its module path, added in order.
    pub fn new(root: Vec<Logger<P, T>>, loggers: Vec<Logger<P, T>>) -> (out: LoggerTree<P, T>)
        requires
            forall|i: int| 0 <= i < loggers@.len() ==> (#[trigger] loggers@[i]).module is Some,
        ensures
            out@ == grown(bare(root@), loggers@),
    {
        let mut tree = LoggerTree { loggers: root, children: Vec::new() };
        assert(models(tree.children@) =~= Seq::empty());
        let mut rest = loggers;
        while rest.len() > 0
            invariant
                forall|i: int| 0 <= i < rest@.len() ==> (#[trigger] rest@[i]).module is Some,
                grown(tree@, rest@) == grown(bare(root@), loggers@),
            decreases rest.len(),
        {
            let ghost before = rest@;
            let logger = rest.remove(0);
            assert(rest@ =~= before.drop_first());
            assert(logger == before[0]);
            let path = match &logger.module {
                Some(module) => module.clone(),
                None => String::new(),
            };
            tree.add_node_lookup(logger, path);
        }
        tree
    }

    /// The loggers that apply to a record from the module `path`, the most
    /// specific first. There always is an answer; it may be empty.
    pub fn find_logger<'a>(&'a self, path: &str) -> (out: Option<Vec<&'a Logger<P, T>>>)
        ensures
            out matches Some(found) && loggers_of(found@) == self@.resolve(segments(path@)),
    {
        let parts = split(path, "::");
        let ghost all = texts(parts@);
        assert(all[0] == parts@[0]@);
        assert(all.drop_first() =~= all.skip(1));
        match find_child(&self.children, parts[0].as_str()) {
            Some(i) => {
                proof {
                    lemma_models(self.children@);
                }
                let mut found = self.children[i].find_from(&parts, 1);
                append_cascading(&mut found, &self.loggers);
                Some(found)
            },
            None => {
                let mut found: Vec<&'a Logger<P, T>> = Vec::new();
                assert(loggers_of(found@) =~= Seq::empty());
                append_all(&mut found, &self.loggers);
                assert(Seq::<Logger<P, T>>::empty() + self.loggers@ =~= self.loggers@);
                Some(found)
            },
        }
    }

    /// Adds `logger` at the module path `path`, creating the nodes on the way
    /// that are not there yet.
    pub fn add_node_lookup(&mut self, logger: Logger<P, T>, path: String)
        ensures
            final(self)@ == old(self)@.inserted(segments(path@), logger),
    {
        let parts = split(path.as_str(), "::");
        let ghost all = texts(parts@);
        assert(all[0] == parts@[0]@);
        assert(all.drop_first() =~= all.skip(1));
        let ghost before = self.children@;
        proof {
            lemma_models(before);
        }
        let at = match find_named(&self.children, parts[0].as_str()) {
            Some(i) => i,
            None => {
                let node = TreeNode {
                    module: parts[0].clone(),
                    loggers: Vec::new(),
                    children: Vec::new(),
                };
                assert(node@ == leaf::<P, T>(all[0])) by {
                    assert(models(node.children@) =~= Seq::empty());
                    assert(node.loggers@ =~= Seq::empty());
                }
                self.add_child(node);
                self.children.len() - 1
            },
        };
        let ghost middle = self.children@;
        self.children[at].add_from(logger, &parts, 1);
        proof {
            let after = self.children@;
            lemma_models(middle);
            lemma_models(after);
            assert(models(after) =~= models(middle).update(at as int, after[at as int]@));
            if child_named(models(before), all[0]) is None {
                assert(models(middle) =~= models(before).push(leaf::<P, T>(all[0])));
                assert(models(after) =~= models(before).push(
                    leaf::<P, T>(all[0]).inserted(all.drop_first(), logger),
                ));
            }
        }
    }

    fn add_child(&mut self, node: TreeNode<P, T>)
        ensures
            final(self).children@ == old(self).children@.push(node),
            final(self).loggers == old(self).loggers,
    {
        self.children.push(node);
    }
}

} // verus!
