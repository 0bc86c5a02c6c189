use crate::error::StoreError;
use crate::store::{lemma_views_push, views, VectorStore};
use vstd::prelude::*;

verus! {

/// The number of tokens sent to the provider in one batched request.
pub const BATCH_SIZE: usize = 20;

/// The pieces of `s` between newline characters, in order. Empty pieces are
/// kept, so that `n` newlines always give `n + 1` pieces.
pub open spec fn split_lines(s: Seq<char>) -> Seq<Seq<char>>
    decreases s.len(),
{
    if s.len() == 0 {
        seq![Seq::<char>::empty()]
    } else {
        let front = split_lines(s.drop_last());
        if s.last() == '\n' {
            front.push(Seq::<char>::empty())
        } else {
            front.update(front.len() - 1, front.last().push(s.last()))
        }
    }
}

/// Relies on `str::split` with a `char` pattern: the substrings between the
/// newlines, in order, empty ones included.
#[verifier::external_body]
fn split_on_newlines(text: &str) -> (r: Vec<String>)
    ensures
        views(r@) == split_lines(text@),
{
    text.split('\n').map(|t| t.to_string()).collect()
}

/// The insertion of a newline-separated text, one batch of tokens at a time.
/// Every line is a token, empty lines included. Each batch is committed to the
/// store as a whole or not at all; after a failed batch the insertion stops,
/// and the batches committed before it stay in the store.
pub struct TextInsertion {
    tokens: Vec<String>,
    next: usize,
    failed: bool,
}

impl TextInsertion {
    pub closed spec fn tokens(&self) -> Seq<Seq<char>> {
        views(self.tokens@)
    }

    /// The position of the first token not yet committed.
    pub closed spec fn next(&self) -> nat {
        self.next as nat
    }

    pub closed spec fn failed(&self) -> bool {
        self.failed
    }

    pub closed spec fn wf(&self) -> bool {
        self.next <= self.tokens@.len()
    }

    pub open spec fn done(&self) -> bool {
        self.failed() || self.next() == self.tokens().len()
    }

    pub open spec fn batch_end(&self) -> nat {
        if self.next() + BATCH_SIZE <= self.tokens().len() {
            (self.next() + BATCH_SIZE) as nat
        } else {
            self.tokens().len()
        }
    }

    /// The tokens of the next request.
    pub open spec fn current_batch(&self) -> Seq<Seq<char>> {
        self.tokens().subrange(self.next() as int, self.batch_end() as int)
    }

    pub fn new(text: &str) -> (j: Self)
        ensures
            j.wf(),
            j.tokens() == split_lines(text@),
            j.next() == 0,
            !j.failed(),
    {
        TextInsertion { tokens: split_on_newlines(text), next: 0, failed: false }
    }

    pub fn is_done(&self) -> (r: bool)
        requires
            self.wf(),
        ensures
            r == self.done(),
    {
        self.failed || self.next == self.tokens.len()
    }

    /// The tokens whose vectors are to be requested next, or `None` once the
    /// text is fully inserted or a batch has failed.
    pub fn pending(&self) -> (r: Option<Vec<String>>)
        requires
            self.wf(),
        ensures
            self.done() ==> r is None,
            !self.done() ==> r is Some && views(r->0@) == self.current_batch(),
    {
        if self.failed || self.next == self.tokens.len() {
            return None;
        }
        let end = if self.tokens.len() - self.next >= BATCH_SIZE {
            self.next + BATCH_SIZE
        } else {
            self.tokens.len()
        };
        let mut batch: Vec<String> = Vec::new();
        let mut i: usize = self.next;
        while i < end
            invariant
                self.next <= i <= end,
                end == self.batch_end(),
                end <= self.tokens@.len(),
                views(batch@) == self.tokens().subrange(self.next as int, i as int),
            decreases end - i,
        {
            let w = self.tokens[i].clone();
            let ghost before = batch@;
            batch.push(w);
            proof {
                lemma_views_push(before, w);
            }
            i = i + 1;
            proof {
                assert(views(batch@) =~= self.tokens().subrange(self.next as int, i as int));
            }
        }
        Some(batch)
    }

    /// Hands the provider's answer for the current batch to the insertion:
    /// the lengths of the vectors it returned, one per token, or the error
    /// that kept it from answering. On success the batch is appended to the
    /// store's labels, from the returned handle on, and the caller inserts the
    /// vectors under those handles. On any error the store is left as it
    /// was, the insertion stops, and the error is returned.
    pub fn apply(&mut self, store: &mut VectorStore, outcome: Result<Vec<usize>, StoreError>) -> (r:
        Result<usize, StoreError>)
        requires
            old(self).wf(),
            !old(self).done(),
        ensures
            final(self).wf(),
            final(self).tokens() == old(self).tokens(),
            final(store).spec_dimension() == old(store).spec_dimension(),
            final(store).spec_url() == old(store).spec_url(),
            outcome is Err ==> r == Err::<usize, StoreError>(outcome->Err_0),
            outcome is Ok && outcome->Ok_0@.len() != old(self).current_batch().len() ==> r == Err::<
                usize,
                StoreError,
            >(StoreError::DeserializationError),
            outcome is Ok && outcome->Ok_0@.len() == old(self).current_batch().len() && (exists|
                i: int,
            |
                0 <= i < outcome->Ok_0@.len() && outcome->Ok_0@[i] != old(store).spec_dimension())
                ==> r == Err::<usize, StoreError>(StoreError::DimensionMismatch),
            outcome is Ok && outcome->Ok_0@.len() == old(self).current_batch().len() && (forall|
                i: int,
            |
                0 <= i < outcome->Ok_0@.len() ==> outcome->Ok_0@[i] == old(store).spec_dimension())
                ==> r == Ok::<usize, StoreError>(old(store).count() as usize),
            r is Err ==> final(self).failed() && final(self).next() == old(self).next(),
            r is Err ==> final(store).labels() == old(store).labels(),
            r is Ok ==> !final(self).failed() && final(self).next() == old(self).batch_end(),
            r is Ok ==> final(store).labels() == old(store).labels() + old(self).current_batch(),
            forall|base: Seq<Seq<char>>|
                old(store).labels() == base + old(self).tokens().subrange(0, old(self).next() as int)
                    ==> #[trigger] final(store).labels() == base + final(self).tokens().subrange(
                    0,
                    final(self).next() as int,
                ),
    {
        match outcome {
            Err(e) => {
                self.failed = true;
                Err(e)
            },
            Ok(lens) => {
                let batch = self.pending();
                let batch = match batch {
                    Some(b) => b,
                    None => {
                        self.failed = true;
                        return Err(StoreError::DeserializationError);
                    },
                };
                let end = if self.tokens.len() - self.next >= BATCH_SIZE {
                    self.next + BATCH_SIZE
                } else {
                    self.tokens.len()
                };
                let ghost start = self.next as int;
                match store.add_batch(&batch, &lens) {
                    Ok(first) => {
                        self.next = end;
                        proof {
                            let t = self.tokens();
                            assert(t.subrange(0, start) + t.subrange(start, end as int) =~= t.subrange(
                                0,
                                end as int,
                            ));
                            assert forall|base: Seq<Seq<char>>|
                                old(store).labels() == base + t.subrange(0, start) implies
                                #[trigger] store.labels() == base + t.subrange(0, end as int) by {
                                assert(base + t.subrange(0, start) + t.subrange(start, end as int)
                                    =~= base + t.subrange(0, end as int));
                            }
                        }
                        Ok(first)
                    },
                    Err(e) => {
                        self.failed = true;
                        Err(e)
                    },
                }
            },
        }
    }
}

} // verus!
