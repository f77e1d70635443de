//! A bundle: a linked graph and the options of its output.

use vstd::prelude::*;
use vstd::string::*;
use crate::chunk::Chunk;
use crate::fold::stem_of;
use crate::graph::{ids_of, BundleGraph};
use crate::shared::{id_set_insert, id_set_new, id_set_of};
use crate::path::{basename, basename_of, dirname, dirname_of, join_of, join_paths, MAX_PATH_LEN};
use crate::text::replaced_from;
use crate::types::NormalizedOutputOptions;

verus! {

pub struct Bundle {
    pub graph: BundleGraph,
    pub output_options: NormalizedOutputOptions,
}

/// The file name of a chunk: the name of the output file where one is set,
/// else the pattern for entry chunks with the name of the chunk in it. A
/// file name too long to be taken apart stands as it is.
pub open spec fn chunk_file_name(options: NormalizedOutputOptions, last_module: Seq<char>) -> Seq<
    char,
> {
    match options.file {
        Some(file) => if file@.len() <= MAX_PATH_LEN {
            basename_of(file@)
        } else {
            file@
        },
        None => replaced_from(options.entry_file_names@, "[name]"@, stem_of(last_module), 0),
    }
}

impl Bundle {
    pub fn new(graph: BundleGraph, output_options: NormalizedOutputOptions) -> (b: Bundle)
        ensures
            b.graph == graph,
            b.output_options == output_options,
    {
        Bundle { graph, output_options }
    }

    /// The chunks of the bundle: one, with every module in the order in which they run.
    pub fn generate_chunks(&self) -> (chunks: Vec<Chunk>)
        requires
            self.graph.wf(),
        ensures
            chunks@.len() == 1,
            chunks@[0].id@.len() == 0,
            chunks@[0].order_modules.deep_view() == self.graph.ordered_ids(),
            id_set_of(chunks@[0].entries) == ids_of(
                self.graph.module_graph.nodes(),
                self.graph.entry_indexs@,
                self.graph.entry_indexs@.len() as int,
            ).to_set(),
    {
        let ghost nodes = self.graph.module_graph.nodes();
        let mut entries = id_set_new();
        assert(id_set_of(entries) =~= ids_of(nodes, self.graph.entry_indexs@, 0).to_set());
        let mut k: usize = 0;
        while k < self.graph.entry_indexs.len()
            invariant
                k <= self.graph.entry_indexs@.len(),
                self.graph.wf(),
                nodes == self.graph.module_graph.nodes(),
                id_set_of(entries) == ids_of(nodes, self.graph.entry_indexs@, k as int).to_set(),
            decreases self.graph.entry_indexs@.len() - k,
        {
            let ghost before = ids_of(nodes, self.graph.entry_indexs@, k as int);
            match self.graph.module_graph.node_id(self.graph.entry_indexs[k]) {
                Some(id) => {
                    let ghost name = id@;
                    id_set_insert(&mut entries, id);
                    proof {
                        assert forall|x: Seq<char>|
                            before.push(name).to_set().contains(x) == before.to_set().insert(
                                name,
                            ).contains(x) by {
                            if before.push(name).contains(x) {
                                let at = choose|at: int|
                                    0 <= at < before.push(name).len() && before.push(name)[at] == x;
                                if at < before.len() {
                                    assert(before[at] == x);
                                }
                            }
                            if before.contains(x) {
                                let at = choose|at: int| 0 <= at < before.len() && before[at] == x;
                                assert(before.push(name)[at] == x);
                            }
                            if x == name {
                                assert(before.push(name)[before.len() as int] == x);
                            }
                        }
                        assert(before.push(name).to_set() =~= before.to_set().insert(name));
                    }
                },
                None => {},
            }
            k += 1;
        }
        let order = self.graph.ordered_module_ids();
        let mut chunks: Vec<Chunk> = Vec::new();
        chunks.push(Chunk::new(order, entries));
        chunks
    }

    /// Gives a chunk its file name.
    pub fn name_chunk(&self, chunk: &mut Chunk)
        requires
            old(chunk).order_modules@.len() > 0,
        ensures
            final(chunk).order_modules == old(chunk).order_modules,
            final(chunk).entries == old(chunk).entries,
            final(chunk).id@ == chunk_file_name(
                self.output_options,
                old(chunk).order_modules@[old(chunk).order_modules@.len() - 1]@,
            ),
    {
        let id = match &self.output_options.file {
            Some(file) => {
                if file.as_str().unicode_len() <= MAX_PATH_LEN {
                    basename(file.as_str())
                } else {
                    file.clone()
                }
            },
            None => chunk.generate_id(&self.output_options),
        };
        chunk.id = id;
    }
}

/// The directory that the output goes to: the one that is set, else the one
/// of the output file, where that is set and short enough to be taken apart.
pub open spec fn output_dir(options: NormalizedOutputOptions) -> Option<Seq<char>> {
    match options.dir {
        Some(dir) => Some(dir@),
        None => match options.file {
            Some(file) => if file@.len() <= MAX_PATH_LEN {
                Some(dirname_of(file@))
            } else {
                None
            },
            None => None,
        },
    }
}

/// Where a file of the output is written: in the output directory, where
/// there is one and the path is short enough to be put together.
pub open spec fn output_path(options: NormalizedOutputOptions, file_name: Seq<char>) -> Option<
    Seq<char>,
> {
    match output_dir(options) {
        Some(dir) => if dir.len() <= MAX_PATH_LEN / 2 && file_name.len() <= MAX_PATH_LEN / 2 {
            Some(join_of(dir, file_name))
        } else {
            None
        },
        None => None,
    }
}

impl Bundle {
    /// Where a file of the output is written; `None` where the options name no place.
    pub fn output_file_path(&self, file_name: &str) -> (r: Option<String>)
        ensures
            r.deep_view() == output_path(self.output_options, file_name@),
    {
        let dir = match &self.output_options.dir {
            Some(dir) => dir.clone(),
            None => match &self.output_options.file {
                Some(file) => {
                    if file.as_str().unicode_len() <= MAX_PATH_LEN {
                        dirname(file.as_str())
                    } else {
                        return None;
                    }
                },
                None => {
                    return None;
                },
            },
        };
        if dir.as_str().unicode_len() <= MAX_PATH_LEN / 2 && file_name.unicode_len() <= MAX_PATH_LEN
            / 2 {
            Some(join_paths(dir.as_str(), file_name))
        } else {
            None
        }
    }
}

} // verus!
