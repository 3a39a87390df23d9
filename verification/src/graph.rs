//! The chunks and modules that the chunking rules work on.
//!
//! Chunks and modules live in one graph and are named by their index in it, so
//! that one chunk found along two ways is one and the same.

use vstd::prelude::*;
use crate::ident::{AssetIdent, IdentView};
use crate::traversal::{Expand, edges_wf, nodes_in};

verus! {

/// What a chunk holds. Script and style chunks are known; every other chunk
/// is opaque.
#[derive(Clone, Copy, Debug, PartialEq, Eq, Structural, Hash)]
pub enum ChunkKind {
    Ecmascript,
    Css,
    Other,
}

/// A unit of output.
#[derive(Debug)]
pub struct Chunk {
    pub ident: AssetIdent,
    pub kind: ChunkKind,
    /// The chunks that have to be loaded together with this one.
    pub parallel_chunks: Vec<usize>,
    /// The assets that the chunk's data refers to.
    pub references: Vec<usize>,
}

/// A module that can be placed in a chunk.
#[derive(Debug)]
pub struct Module {
    pub ident: AssetIdent,
    /// The chunk that the module is the root of.
    pub root_chunk: usize,
    /// Whether the module can be an item of a script chunk.
    pub placeable: bool,
}

/// The view of a [`Chunk`].
pub struct ChunkView {
    pub ident: IdentView,
    pub kind: ChunkKind,
    pub parallel_chunks: Seq<usize>,
    pub references: Seq<usize>,
}

/// The view of a [`Module`].
pub struct ModuleView {
    pub ident: IdentView,
    pub root_chunk: usize,
    pub placeable: bool,
}

/// The view of a [`ChunkGraph`].
pub struct GraphView {
    pub chunks: Seq<ChunkView>,
    pub modules: Seq<ModuleView>,
}

impl View for Chunk {
    type V = ChunkView;

    open spec fn view(&self) -> ChunkView {
        ChunkView {
            ident: self.ident@,
            kind: self.kind,
            parallel_chunks: self.parallel_chunks@,
            references: self.references@,
        }
    }
}

impl View for Module {
    type V = ModuleView;

    open spec fn view(&self) -> ModuleView {
        ModuleView { ident: self.ident@, root_chunk: self.root_chunk, placeable: self.placeable }
    }
}

impl View for ChunkGraph {
    type V = GraphView;

    open spec fn view(&self) -> GraphView {
        GraphView {
            chunks: Seq::new(self.chunks().len(), |u: int| self.chunks()[u]@),
            modules: Seq::new(self.modules().len(), |m: int| self.modules()[m]@),
        }
    }
}

/// The chunks and modules of a build.
#[derive(Debug)]
pub struct ChunkGraph {
    chunks: Vec<Chunk>,
    modules: Vec<Module>,
}

impl ChunkGraph {
    /// The chunks of the graph.
    pub closed spec fn chunks(&self) -> Seq<Chunk> {
        self.chunks@
    }

    /// The modules of the graph.
    pub closed spec fn modules(&self) -> Seq<Module> {
        self.modules@
    }

    /// For each chunk the chunks that load together with it.
    pub open spec fn edges(&self) -> Seq<Seq<usize>> {
        Seq::new(self.chunks().len(), |u: int| self.chunks()[u].parallel_chunks@)
    }

    /// For each chunk what it holds.
    pub open spec fn kinds(&self) -> Seq<ChunkKind> {
        Seq::new(self.chunks().len(), |u: int| self.chunks()[u].kind)
    }

    /// For each module the chunk that it is the root of.
    pub open spec fn roots(&self) -> Seq<usize> {
        Seq::new(self.modules().len(), |m: int| self.modules()[m].root_chunk)
    }

    /// Whatever names a chunk names a chunk of the graph.
    pub open spec fn wf(&self) -> bool {
        &&& edges_wf(self.edges())
        &&& forall|u: int|
            0 <= u < self.chunks().len() ==> nodes_in(
                self.edges(),
                (#[trigger] self.chunks()[u]).references@,
            )
        &&& forall|m: int|
            0 <= m < self.modules().len() ==> (#[trigger] self.modules()[m]).root_chunk
                < self.chunks().len()
        &&& forall|u: int, v: int|
            0 <= u < v < self.chunks().len() ==> (#[trigger] self.chunks()[u]).ident@ != (
            #[trigger] self.chunks()[v]).ident@
    }

    /// Some chunk of the graph has the identity `ident`.
    pub open spec fn has_chunk(&self, ident: IdentView) -> bool {
        exists|u: int| 0 <= u < self.chunks().len() && (#[trigger] self.chunks()[u]).ident@ == ident
    }

    /// The name of the chunk with the identity `ident`.
    pub open spec fn chunk_named(&self, ident: IdentView) -> int {
        choose|u: int| 0 <= u < self.chunks().len() && (#[trigger] self.chunks()[u]).ident@ == ident
    }

    /// A graph without chunks and modules.
    pub fn new() -> (graph: ChunkGraph)
        ensures
            graph.wf(),
            graph.chunks().len() == 0,
            graph.modules().len() == 0,
    {
        ChunkGraph { chunks: Vec::new(), modules: Vec::new() }
    }

    /// The number of chunks.
    pub fn len(&self) -> (n: usize)
        ensures
            n == self.chunks().len(),
    {
        self.chunks.len()
    }

    /// The number of modules.
    pub fn module_count(&self) -> (n: usize)
        ensures
            n == self.modules().len(),
    {
        self.modules.len()
    }

    /// The chunk named `id`.
    pub fn chunk(&self, id: usize) -> (chunk: &Chunk)
        requires
            id < self.chunks().len(),
        ensures
            *chunk == self.chunks()[id as int],
    {
        &self.chunks[id]
    }

    /// The module named `id`.
    pub fn module(&self, id: usize) -> (module: &Module)
        requires
            id < self.modules().len(),
        ensures
            *module == self.modules()[id as int],
    {
        &self.modules[id]
    }

    /// The name of the chunk with the identity `ident`, where the graph holds
    /// one.
    pub fn find_chunk(&self, ident: &AssetIdent) -> (id: Option<usize>)
        requires
            self.wf(),
        ensures
            id.is_some() == self.has_chunk(ident@),
            id.is_some() ==> id.unwrap() == self.chunk_named(ident@) && id.unwrap()
                < self.chunks().len() && self.chunks()[id.unwrap() as int].ident@ == ident@,
    {
        let mut i: usize = 0;
        while i < self.chunks.len()
            invariant
                self.wf(),
                i <= self.chunks().len(),
                forall|u: int| 0 <= u < i ==> (#[trigger] self.chunks()[u]).ident@ != ident@,
            decreases self.chunks().len() - i,
        {
            if self.chunks[i].ident.same(ident) {
                proof {
                    assert(self.chunks()[i as int].ident@ == ident@);
                    let found = self.chunk_named(ident@);
                    if found < i {
                        assert(self.chunks()[found].ident@ != self.chunks()[i as int].ident@);
                    } else if i < found {
                        assert(self.chunks()[i as int].ident@ != self.chunks()[found].ident@);
                    }
                }
                return Some(i);
            }
            i += 1;
        }
        None
    }

    /// Adds a chunk with the identity `ident` that stands alone, and returns
    /// its name. A graph holds one chunk for one identity: where it holds a
    /// chunk with this identity, that chunk is named and nothing changes.
    pub fn add_chunk(&mut self, ident: AssetIdent, kind: ChunkKind) -> (id: usize)
        requires
            old(self).wf(),
        ensures
            final(self).wf(),
            id < final(self).chunks().len(),
            final(self).chunks()[id as int].ident@ == ident@,
            final(self).modules() == old(self).modules(),
            forall|u: int|
                0 <= u < old(self).chunks().len() ==> final(self).chunks()[u] == old(
                    self,
                ).chunks()[u],
            old(self).has_chunk(ident@) ==> *final(self) == *old(self) && id == old(
                self,
            ).chunk_named(ident@),
            !old(self).has_chunk(ident@) ==> {
                &&& id == old(self).chunks().len()
                &&& final(self).chunks().len() == old(self).chunks().len() + 1
                &&& final(self).chunks()[id as int].ident == ident
                &&& final(self).chunks()[id as int].kind == kind
                &&& final(self).chunks()[id as int].parallel_chunks@ == Seq::<usize>::empty()
                &&& final(self).chunks()[id as int].references@ == Seq::<usize>::empty()
            },
    {
        match self.find_chunk(&ident) {
            Some(found) => {
                return found;
            },
            None => {},
        }
        let id = self.chunks.len();
        self.chunks.push(
            Chunk { ident, kind, parallel_chunks: Vec::new(), references: Vec::new() },
        );
        let count = self.chunks.len();
        proof {
            assert(self.edges().len() <= usize::MAX);
            assert forall|m: int| 0 <= m < self.modules().len() implies (
            #[trigger] self.modules()[m]).root_chunk < self.chunks().len() by {
                assert(old(self).modules()[m].root_chunk < old(self).chunks().len());
            }
            assert forall|u: int, k: int|
                0 <= u < self.edges().len() && 0 <= k < self.edges()[u].len() implies (
            #[trigger] self.edges()[u][k]) < self.edges().len() by {
                assert(u < id);
                assert(self.edges()[u] == old(self).edges()[u]);
                assert(old(self).edges()[u][k] < old(self).edges().len());
            }
            assert forall|u: int| 0 <= u < self.edges().len() implies (
            #[trigger] self.edges()[u]).len() <= usize::MAX by {
                if u < id {
                    assert(self.edges()[u] == old(self).edges()[u]);
                }
            }
            assert forall|u: int| 0 <= u < self.chunks().len() implies nodes_in(
                self.edges(),
                (#[trigger] self.chunks()[u]).references@,
            ) by {
                if u < id {
                    assert(nodes_in(old(self).edges(), old(self).chunks()[u].references@));
                }
            }
            assert(edges_wf(self.edges()));
            assert forall|u: int, v: int| 0 <= u < v < self.chunks().len() implies (
            #[trigger] self.chunks()[u]).ident@ != (#[trigger] self.chunks()[v]).ident@ by {
                if v < id {
                    assert(old(self).chunks()[u].ident@ != old(self).chunks()[v].ident@);
                } else {
                    assert(old(self).chunks()[u].ident@ != ident@);
                }
            }
        }
        id
    }

    /// Lets the chunk `to` load together with the chunk `from`. Returns false,
    /// and changes nothing, where one of the two is no chunk of the graph.
    pub fn add_parallel_chunk(&mut self, from: usize, to: usize) -> (added: bool)
        requires
            old(self).wf(),
        ensures
            final(self).wf(),
            added == (from < old(self).chunks().len() && to < old(self).chunks().len()),
            !added ==> *final(self) == *old(self),
            added ==> final(self).edges() == old(self).edges().update(
                from as int,
                old(self).edges()[from as int].push(to),
            ),
            final(self).chunks().len() == old(self).chunks().len(),
            forall|u: int|
                0 <= u < old(self).chunks().len() ==> (#[trigger] final(self).chunks()[u]).ident
                    == old(self).chunks()[u].ident && final(self).chunks()[u].kind == old(
                    self,
                ).chunks()[u].kind && final(self).chunks()[u].references == old(
                    self,
                ).chunks()[u].references,
            final(self).modules() == old(self).modules(),
    {
        if from >= self.chunks.len() || to >= self.chunks.len() {
            return false;
        }
        self.chunks[from].parallel_chunks.push(to);
        let degree = self.chunks[from].parallel_chunks.len();
        proof {
            let before = old(self).edges();
            let after = self.edges();
            assert(after =~= before.update(from as int, before[from as int].push(to)));
            assert forall|u: int, k: int|
                0 <= u < after.len() && 0 <= k < after[u].len() implies (#[trigger] after[u][k])
                < after.len() by {
                if u != from || k < before[u].len() {
                    assert(before[u][k] < before.len());
                }
            }
            assert forall|u: int| 0 <= u < after.len() implies (#[trigger] after[u]).len()
                <= usize::MAX by {
                if u != from {
                    assert(after[u] == before[u]);
                } else {
                    assert(after[u].len() == degree);
                }
            }
            assert forall|u: int| 0 <= u < self.chunks().len() implies nodes_in(
                self.edges(),
                (#[trigger] self.chunks()[u]).references@,
            ) by {
                assert(nodes_in(old(self).edges(), old(self).chunks()[u].references@));
            }
            assert forall|m: int| 0 <= m < self.modules().len() implies (
            #[trigger] self.modules()[m]).root_chunk < self.chunks().len() by {
                assert(old(self).modules()[m].root_chunk < old(self).chunks().len());
            }
            assert forall|u: int, v: int| 0 <= u < v < self.chunks().len() implies (
            #[trigger] self.chunks()[u]).ident@ != (#[trigger] self.chunks()[v]).ident@ by {
                assert(old(self).chunks()[u].ident@ != old(self).chunks()[v].ident@);
            }
        }
        true
    }

    /// Lets the data of the chunk `from` refer to the chunk `to`. Returns
    /// false, and changes nothing, where one of the two is no chunk of the
    /// graph.
    pub fn add_reference(&mut self, from: usize, to: usize) -> (added: bool)
        requires
            old(self).wf(),
        ensures
            final(self).wf(),
            added == (from < old(self).chunks().len() && to < old(self).chunks().len()),
            !added ==> *final(self) == *old(self),
            added ==> final(self).chunks()[from as int].references@ == old(
                self,
            ).chunks()[from as int].references@.push(to),
            final(self).edges() == old(self).edges(),
            final(self).chunks().len() == old(self).chunks().len(),
            forall|u: int|
                0 <= u < old(self).chunks().len() ==> (#[trigger] final(self).chunks()[u]).ident
                    == old(self).chunks()[u].ident && final(self).chunks()[u].kind == old(
                    self,
                ).chunks()[u].kind && (u != from ==> final(self).chunks()[u].references == old(
                    self,
                ).chunks()[u].references),
            final(self).modules() == old(self).modules(),
    {
        if from >= self.chunks.len() || to >= self.chunks.len() {
            return false;
        }
        self.chunks[from].references.push(to);
        proof {
            assert(self.edges() =~= old(self).edges());
            assert forall|u: int| 0 <= u < self.chunks().len() implies nodes_in(
                self.edges(),
                (#[trigger] self.chunks()[u]).references@,
            ) by {
                assert(nodes_in(old(self).edges(), old(self).chunks()[u].references@));
            }
            assert forall|m: int| 0 <= m < self.modules().len() implies (
            #[trigger] self.modules()[m]).root_chunk < self.chunks().len() by {
                assert(old(self).modules()[m].root_chunk < old(self).chunks().len());
            }
            assert forall|u: int, v: int| 0 <= u < v < self.chunks().len() implies (
            #[trigger] self.chunks()[u]).ident@ != (#[trigger] self.chunks()[v]).ident@ by {
                assert(old(self).chunks()[u].ident@ != old(self).chunks()[v].ident@);
            }
        }
        true
    }

    /// Adds a module whose root chunk is `root_chunk`, and returns its name;
    /// `None`, with nothing changed, where `root_chunk` is no chunk of the
    /// graph.
    pub fn add_module(&mut self, ident: AssetIdent, root_chunk: usize, placeable: bool) -> (id:
        Option<usize>)
        requires
            old(self).wf(),
        ensures
            final(self).wf(),
            final(self).chunks() == old(self).chunks(),
            id.is_some() == (root_chunk < old(self).chunks().len()),
            id.is_none() ==> *final(self) == *old(self),
            id.is_some() ==> id.unwrap() == old(self).modules().len() && final(self).modules()
                == old(self).modules().push(
                Module { ident, root_chunk, placeable },
            ),
    {
        if root_chunk >= self.chunks.len() {
            return None;
        }
        let id = self.modules.len();
        self.modules.push(Module { ident, root_chunk, placeable });
        proof {
            assert(self.edges() =~= old(self).edges());
            assert forall|m: int| 0 <= m < self.modules().len() implies (
            #[trigger] self.modules()[m]).root_chunk < self.chunks().len() by {
                if m < id {
                    assert(old(self).modules()[m].root_chunk < old(self).chunks().len());
                }
            }
        }
        Some(id)
    }
}


impl Expand for ChunkGraph {
    open spec fn expansion(&self) -> Seq<Seq<usize>> {
        self.edges()
    }

    fn node_count(&self) -> (count: usize) {
        self.chunks.len()
    }

    fn expand(&self, node: usize, edge: usize) -> (target: Option<usize>) {
        let targets = &self.chunks[node].parallel_chunks;
        if edge < targets.len() {
            Some(targets[edge])
        } else {
            None
        }
    }
}

} // verus!
