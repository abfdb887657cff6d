//! The file walker: which paths are visited, and which of them are handed on
//! as files.
//!
//! The walker keeps an explicit list of the paths that are still to be
//! visited instead of recursing, so a deep tree costs memory on the heap and
//! never stack. It does not touch the file system itself: the caller probes
//! the path that the walker hands out and reports what it found. A path that
//! is a regular file is handed on; a directory that could be listed has its
//! entries visited next, in the order in which they were listed; everything
//! else is skipped without a word.

use crate::pipeline::{FileInput, FileRecord};
use vstd::prelude::*;

verus! {

/// What probing a path gave.
pub enum Probe<H> {
    /// A directory, with the entries that listing it gave.
    Directory(Vec<H>),
    /// A regular file.
    File,
    /// Anything else: no such path, no permission, a directory that cannot be
    /// listed, neither a file nor a directory.
    Skipped,
}

/// The paths still to be visited. The last one of `pending` is visited next.
pub struct FileWalker<H> {
    pending: Vec<H>,
}

impl<H> View for FileWalker<H> {
    type V = Seq<H>;

    /// The paths still to be visited, the next one first.
    closed spec fn view(&self) -> Seq<H> {
        self.pending@.reverse()
    }
}

impl<H> FileWalker<H> {
    /// A walker that has nothing to visit.
    pub fn empty() -> (walker: Self)
        ensures
            walker@ == Seq::<H>::empty(),
    {
        let walker = FileWalker { pending: Vec::new() };
        assert(walker@ =~= Seq::<H>::empty());
        walker
    }

    /// A walker that will visit `roots`, the first root first.
    pub fn new(roots: Vec<H>) -> (walker: Self)
        ensures
            walker@ == roots@,
    {
        let mut walker = FileWalker::empty();
        walker.descend(roots);
        walker
    }

    /// Whether every path has been visited.
    pub fn is_done(&self) -> (done: bool)
        ensures
            done == (self@.len() == 0),
    {
        self.pending.len() == 0
    }

    /// Hands out the path to visit next, if any is left.
    pub fn next_path(&mut self) -> (next: Option<H>)
        ensures
            match next {
                Some(path) => old(self)@.len() > 0 && path == old(self)@[0] && final(self)@ == old(
                    self,
                )@.skip(1),
                None => old(self)@.len() == 0 && final(self)@ == old(self)@,
            },
    {
        let next = self.pending.pop();
        proof {
            if next.is_some() {
                assert(self@ =~= old(self)@.skip(1));
            }
        }
        next
    }

    /// Puts the entries of a directory in front of everything that is still
    /// to be visited, in the order in which they were listed.
    pub fn descend(&mut self, entries: Vec<H>)
        ensures
            final(self)@ == entries@ + old(self)@,
    {
        let ghost listed = entries@;
        let ghost before = self@;
        let mut entries = entries;
        while entries.len() > 0
            invariant
                entries@.len() <= listed.len(),
                entries@ == listed.take(entries@.len() as int),
                self@ == listed.skip(entries@.len() as int) + before,
            decreases entries.len(),
        {
            let ghost held = self@;
            let ghost left = entries@;
            let entry = entries.pop().unwrap();
            self.pending.push(entry);
            proof {
                assert(self@ =~= seq![entry] + held);
                assert(entries@ =~= listed.take(entries@.len() as int));
                assert(self@ =~= listed.skip(entries@.len() as int) + before);
            }
        }
        assert(self@ =~= listed + before);
    }

    /// Takes in what probing `path` gave. A regular file is handed back, to
    /// be passed on to the workers; the entries of a directory are queued;
    /// anything else is dropped.
    pub fn visit(&mut self, path: H, probe: Probe<H>) -> (file: Option<H>)
        ensures
            match probe {
                Probe::File => file == Some(path) && final(self)@ == old(self)@,
                Probe::Directory(entries) => file.is_none() && final(self)@ == entries@ + old(
                    self,
                )@,
                Probe::Skipped => file.is_none() && final(self)@ == old(self)@,
            },
    {
        match probe {
            Probe::File => Some(path),
            Probe::Directory(entries) => {
                self.descend(entries);
                None
            },
            Probe::Skipped => None,
        }
    }
}

/// A file tree held in memory: what a walk finds at a path, and below it.
pub enum FsNode<P> {
    /// A regular file and what reading it gives, `None` where it cannot be
    /// read.
    File { path: P, content: Option<Vec<u8>> },
    /// A directory and its entries, `None` where it cannot be listed.
    Directory { path: P, entries: Option<Vec<FsNode<P>>> },
    /// Something that is neither, or that is gone.
    Other { path: P },
}

/// The regular files at and below `node`, as a walk meets them: a directory
/// gives the files of its entries, entry by entry.
pub open spec fn files_below<P>(node: FsNode<P>) -> Seq<FileRecord<P>>
    decreases node,
{
    match node {
        FsNode::File { path, content } => seq![
            FileRecord {
                path,
                content: match content {
                    Some(bytes) => Some(bytes@),
                    None => None,
                },
            },
        ],
        FsNode::Directory { path, entries: Some(entries) } => files_among(entries@),
        FsNode::Directory { path, entries: None } => Seq::empty(),
        FsNode::Other { path } => Seq::empty(),
    }
}

/// The regular files at and below each of `nodes`, node by node.
pub open spec fn files_among<P>(nodes: Seq<FsNode<P>>) -> Seq<FileRecord<P>>
    decreases nodes,
{
    if nodes.len() == 0 {
        Seq::empty()
    } else {
        files_among(nodes.drop_last()) + files_below(nodes.last())
    }
}

/// The number of nodes at and below `node`.
pub open spec fn node_count<P>(node: FsNode<P>) -> nat
    decreases node,
{
    match node {
        FsNode::Directory { path, entries: Some(entries) } => 1 + node_count_among(entries@),
        _ => 1,
    }
}

/// The number of nodes at and below each of `nodes`.
pub open spec fn node_count_among<P>(nodes: Seq<FsNode<P>>) -> nat
    decreases nodes,
{
    if nodes.len() == 0 {
        0
    } else {
        node_count_among(nodes.drop_last()) + node_count(nodes.last())
    }
}

/// The files among two lists of nodes are the files among the first followed
/// by the files among the second, and the node counts add up.
pub proof fn lemma_files_among_concat<P>(a: Seq<FsNode<P>>, b: Seq<FsNode<P>>)
    ensures
        files_among(a + b) == files_among(a) + files_among(b),
        node_count_among(a + b) == node_count_among(a) + node_count_among(b),
    decreases b.len(),
{
    if b.len() == 0 {
        assert(a + b =~= a);
        assert(files_among(a) + files_among(b) =~= files_among(a));
    } else {
        lemma_files_among_concat(a, b.drop_last());
        assert((a + b).drop_last() =~= a + b.drop_last());
        assert((a + b).last() == b.last());
        assert(files_among(a + b) =~= files_among(a) + files_among(b));
    }
}

/// A list of one node holds the files and the nodes of that node.
pub proof fn lemma_files_among_single<P>(node: FsNode<P>)
    ensures
        files_among(seq![node]) == files_below(node),
        node_count_among(seq![node]) == node_count(node),
{
    let one = seq![node];
    assert(one.drop_last() =~= Seq::<FsNode<P>>::empty());
    assert(one.last() == node);
    assert(files_among(one.drop_last()) =~= Seq::<FileRecord<P>>::empty());
    assert(node_count_among(one.drop_last()) == 0);
    assert(files_among(one) =~= files_among(one.drop_last()) + files_below(one.last()));
}

/// Walks the trees `roots` with an explicit work list and collects every
/// regular file, in the order in which a walk that descends into each
/// directory as it meets it finds them.
pub fn collect_files<P>(roots: Vec<FsNode<P>>) -> (files: Vec<FileInput<P>>)
    ensures
        files@.map_values(|file: FileInput<P>| file@) == files_among(roots@),
{
    let ghost all = roots@;
    let mut walker = FileWalker::new(roots);
    let mut files: Vec<FileInput<P>> = Vec::new();
    assert(files@.map_values(|file: FileInput<P>| file@) =~= Seq::empty());
    loop
        invariant
            files@.map_values(|file: FileInput<P>| file@) + files_among(walker@) == files_among(
                all,
            ),
        ensures
            files@.map_values(|file: FileInput<P>| file@) == files_among(all),
        decreases node_count_among(walker@),
    {
        let ghost queue = walker@;
        let ghost found = files@.map_values(|file: FileInput<P>| file@);
        match walker.next_path() {
            None => {
                break ;
            },
            Some(node) => {
                proof {
                    assert(queue =~= seq![node] + queue.skip(1));
                    lemma_files_among_concat(seq![node], queue.skip(1));
                    lemma_files_among_single(node);
                }
                match node {
                    FsNode::File { path, content } => {
                        let file = FileInput { path, content };
                        files.push(file);
                        proof {
                            assert(files@.map_values(|file: FileInput<P>| file@) =~= found.push(
                                file@,
                            ));
                        }
                    },
                    FsNode::Directory { path, entries: Some(entries) } => {
                        proof {
                            lemma_files_among_concat(entries@, queue.skip(1));
                        }
                        walker.descend(entries);
                    },
                    FsNode::Directory { path, entries: None } => {},
                    FsNode::Other { path } => {},
                }
            },
        }
    }
    files
}

} // verus!
