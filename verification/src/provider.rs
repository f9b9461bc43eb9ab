//! The chunk interface and the table provider that adapts a set of chunks
//! of one table into a scan source for the plan builder.

use vstd::prelude::*;
use crate::predicate::DeletePredicate;
use crate::schema::Schema;

verus! {

/// The planning-boundary view of a chunk: a named, schema-bearing,
/// read-only data source. Concrete chunks are persisted-chunk handles or
/// in-memory queryable batches; the planner consults only this metadata.
pub trait QueryChunk: Sized {
    /// The owning table, as contracts see it.
    spec fn spec_table_name(&self) -> Seq<char>;

    /// The stable identifier, as contracts see it.
    spec fn spec_id(&self) -> u64;

    /// Whether the chunk may hold duplicate primary keys, as contracts see
    /// it.
    spec fn spec_may_contain_pk_duplicates(&self) -> bool;

    /// Whether the chunk is already sorted on the primary key, as
    /// contracts see it.
    spec fn spec_is_sorted_on_pk(&self) -> bool;

    /// The attached delete predicates, as contracts see them.
    spec fn spec_delete_predicates(&self) -> Seq<DeletePredicate>;

    /// The name of the table this chunk belongs to.
    fn table_name(&self) -> (r: &str)
        ensures
            r@ == self.spec_table_name(),
    ;

    /// The chunk's stable identifier.
    fn id(&self) -> (r: u64)
        ensures
            r == self.spec_id(),
    ;

    /// Whether the chunk may contain duplicate primary keys within itself.
    fn may_contain_pk_duplicates(&self) -> (r: bool)
        ensures
            r == self.spec_may_contain_pk_duplicates(),
    ;

    /// Whether the chunk's rows are already sorted on the primary key.
    fn is_sorted_on_pk(&self) -> (r: bool)
        ensures
            r == self.spec_is_sorted_on_pk(),
    ;

    /// The delete predicates attached to this chunk; a plan over the chunk
    /// must exclude every row any of them deletes.
    fn delete_predicates(&self) -> (r: &Vec<DeletePredicate>)
        ensures
            r@ == self.spec_delete_predicates(),
    ;
}

/// Why a provider could not be built.
#[derive(Debug)]
pub enum ProviderError {
    /// A chunk belongs to a different table than the provider.
    TableMismatch { expected: String, actual: String },
    /// No pruner was configured.
    InternalNoChunkPruner,
}

/// A pruning hook that may reject a chunk early on metadata alone; the
/// no-op pruner accepts every chunk.
pub enum ChunkPruner {
    NoOp,
}

impl ChunkPruner {
    /// Which chunks survive pruning: the no-op pruner keeps them all.
    pub fn prune_chunks<C: QueryChunk>(&self, chunks: Vec<C>) -> (r: Vec<C>)
        ensures
            r == chunks,
    {
        match self {
            ChunkPruner::NoOp => chunks,
        }
    }
}

/// A scan source over the chunks of one table: the unified schema the scan
/// reports, the chunks themselves, and whether the scan's output must be
/// sorted on the primary key (tags, then time).
pub struct ChunkTableProvider<C> {
    pub table_name: String,
    pub schema: Schema,
    pub chunks: Vec<C>,
    pub ensure_pk_sort: bool,
}

impl<C: QueryChunk> ChunkTableProvider<C> {
    /// The schema this provider's scan reports.
    pub fn iox_schema(&self) -> (r: &Schema)
        ensures
            r == &self.schema,
    {
        &self.schema
    }

    /// The table this provider scans.
    pub fn table_name(&self) -> (r: &str)
        ensures
            r@ == self.table_name@,
    {
        self.table_name.as_str()
    }
}

/// Builds a [`ChunkTableProvider`] from chunks of one table.
pub struct ProviderBuilder<C> {
    pub table_name: String,
    pub schema: Schema,
    pub chunks: Vec<C>,
    pub ensure_pk_sort: bool,
    pub pruner: Option<ChunkPruner>,
}

impl<C: QueryChunk> ProviderBuilder<C> {
    pub fn new(table_name: &str, schema: Schema) -> (r: ProviderBuilder<C>)
        ensures
            r.table_name@ == table_name@,
            r.schema == schema,
            r.chunks@.len() == 0,
            r.ensure_pk_sort == false,
            r.pruner is None,
    {
        ProviderBuilder {
            table_name: table_name.to_owned(),
            schema,
            chunks: Vec::new(),
            ensure_pk_sort: false,
            pruner: None,
        }
    }

    /// Installs the pruner that accepts every chunk.
    pub fn add_no_op_pruner(self) -> (r: ProviderBuilder<C>)
        ensures
            r.table_name == self.table_name,
            r.schema == self.schema,
            r.chunks == self.chunks,
            r.ensure_pk_sort == self.ensure_pk_sort,
            r.pruner == Some(ChunkPruner::NoOp),
    {
        ProviderBuilder { pruner: Some(ChunkPruner::NoOp), ..self }
    }

    /// Adds one chunk to the scan.
    pub fn add_chunk(self, chunk: C) -> (r: ProviderBuilder<C>)
        ensures
            r.table_name == self.table_name,
            r.schema == self.schema,
            r.chunks@ == self.chunks@.push(chunk),
            r.ensure_pk_sort == self.ensure_pk_sort,
            r.pruner == self.pruner,
    {
        let mut chunks = self.chunks;
        chunks.push(chunk);
        ProviderBuilder { chunks, ..self }
    }

    /// Hands the whole chunk list to the scan at once.
    pub fn with_chunks(self, chunks: Vec<C>) -> (r: ProviderBuilder<C>)
        ensures
            r.table_name == self.table_name,
            r.schema == self.schema,
            r.chunks == chunks,
            r.ensure_pk_sort == self.ensure_pk_sort,
            r.pruner == self.pruner,
    {
        ProviderBuilder { chunks, ..self }
    }

    /// Requests that the scan's output be sorted on the primary key, so
    /// that identical-key rows are contiguous for deduplication.
    pub fn ensure_pk_sort(&mut self)
        ensures
            final(self).table_name == old(self).table_name,
            final(self).schema == old(self).schema,
            final(self).chunks == old(self).chunks,
            final(self).ensure_pk_sort == true,
            final(self).pruner == old(self).pruner,
    {
        self.ensure_pk_sort = true;
    }

    /// Builds the provider.
    ///
    /// Fails when no pruner was configured, or when a chunk reports a
    /// different table than the provider: chunks of several tables in one
    /// scan indicate a caller bug.
    pub fn build(self) -> (r: Result<ChunkTableProvider<C>, ProviderError>)
        ensures
            match r {
                Ok(p) => {
                    &&& self.pruner is Some
                    &&& forall|i: int|
                        0 <= i < self.chunks@.len() ==> (#[trigger] self.chunks@[i]).spec_table_name()
                            == self.table_name@
                    &&& p.table_name == self.table_name
                    &&& p.schema == self.schema
                    &&& p.chunks == self.chunks
                    &&& p.ensure_pk_sort == self.ensure_pk_sort
                },
                Err(ProviderError::InternalNoChunkPruner) => self.pruner is None,
                Err(ProviderError::TableMismatch { expected, actual }) => {
                    &&& self.pruner is Some
                    &&& expected@ == self.table_name@
                    &&& exists|i: int|
                        0 <= i < self.chunks@.len() && (#[trigger] self.chunks@[i]).spec_table_name()
                            == actual@ && actual@ != self.table_name@
                },
            },
    {
        if self.pruner.is_none() {
            return Err(ProviderError::InternalNoChunkPruner);
        }
        let mut i: usize = 0;
        while i < self.chunks.len()
            invariant
                i <= self.chunks@.len(),
                self.pruner is Some,
                forall|j: int|
                    0 <= j < i ==> (#[trigger] self.chunks@[j]).spec_table_name()
                        == self.table_name@,
            decreases self.chunks@.len() - i,
        {
            let chunk_table = self.chunks[i].table_name();
            if !crate::text::str_eq(chunk_table, self.table_name.as_str()) {
                let actual = chunk_table.to_owned();
                proof {
                    assert(0 <= (i as int) < self.chunks@.len() && (
                    self.chunks@[i as int]).spec_table_name() == actual@ && actual@
                        != self.table_name@);
                }
                return Err(
                    ProviderError::TableMismatch { expected: self.table_name, actual },
                );
            }
            i = i + 1;
        }
        Ok(
            ChunkTableProvider {
                table_name: self.table_name,
                schema: self.schema,
                chunks: self.chunks,
                ensure_pk_sort: self.ensure_pk_sort,
            },
        )
    }
}

} // verus!
