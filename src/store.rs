use crate::error::StoreError;
use crate::ranking::{is_top_k, lemma_top_k_unique, rank_neighbors, Neighbor};
use vstd::prelude::*;

verus! {

/// The dimension of a store created without one.
pub const DEFAULT_DIMENSION: usize = 384;

/// The provider endpoint of a store created without one.
pub open spec fn default_endpoint() -> Seq<char> {
    "https://embidded-serever.onrender.com/"@
}

/// The labels that the handles of `ranked` carry in `labels`, in the same order.
pub open spec fn labels_of(labels: Seq<Seq<char>>, ranked: Seq<Neighbor>) -> Seq<Seq<char>> {
    ranked.map_values(|n: Neighbor| labels[n.1 as int])
}

/// The character sequences of a sequence of strings.
pub open spec fn views(v: Seq<String>) -> Seq<Seq<char>> {
    v.map_values(|w: String| w@)
}

/// Pushing a string onto a sequence pushes its characters onto the views.
pub proof fn lemma_views_push(v: Seq<String>, w: String)
    ensures
        views(v.push(w)) == views(v).push(w@),
{
    assert(views(v.push(w)) =~= views(v).push(w@));
}

/// Every handle of `ranked` is one that the store has assigned.
pub open spec fn all_known(count: nat, ranked: Seq<Neighbor>) -> bool {
    forall|i: int| 0 <= i < ranked.len() ==> (#[trigger] ranked[i]).1 < count
}

/// The label table of an embedding index, with the provider endpoint and the
/// fixed dimension of its vectors. The label at position `h` belongs to the
/// vector inserted under handle `h`; handles are assigned in insertion order,
/// from zero, and never reused.
#[derive(Clone, Debug)]
pub struct VectorStore {
    url: String,
    dimension: usize,
    words: Vec<String>,
}

impl VectorStore {
    pub closed spec fn spec_url(&self) -> Seq<char> {
        self.url@
    }

    pub closed spec fn spec_dimension(&self) -> nat {
        self.dimension as nat
    }

    /// The label table: position `h` holds the token of handle `h`.
    pub closed spec fn labels(&self) -> Seq<Seq<char>> {
        views(self.words@)
    }

    /// The number of vectors inserted, which is the next handle.
    pub open spec fn count(&self) -> nat {
        self.labels().len()
    }

    /// An empty store of the given dimension (384 by default) whose
    /// embeddings come from the given endpoint (a public service by default).
    pub fn new(url: Option<String>, vectore_dimension: Option<usize>) -> (s: Self)
        ensures
            s.spec_dimension() == (match vectore_dimension {
                Some(d) => d as nat,
                None => DEFAULT_DIMENSION as nat,
            }),
            s.spec_url() == (match url {
                Some(u) => u@,
                None => default_endpoint(),
            }),
            s.labels() == Seq::<Seq<char>>::empty(),
    {
        let dimension = match vectore_dimension {
            Some(d) => d,
            None => DEFAULT_DIMENSION,
        };
        let url = match url {
            Some(u) => u,
            None => String::from_str("https://embidded-serever.onrender.com/"),
        };
        let words: Vec<String> = Vec::new();
        proof {
            assert(views(words@) =~= Seq::<Seq<char>>::empty());
        }
        VectorStore { url, dimension, words }
    }

    pub fn url(&self) -> (r: &str)
        ensures
            r@ == self.spec_url(),
    {
        self.url.as_str()
    }

    pub fn dimension(&self) -> (r: usize)
        ensures
            r == self.spec_dimension(),
    {
        self.dimension
    }

    pub fn len(&self) -> (r: usize)
        ensures
            r == self.count(),
    {
        self.words.len()
    }

    /// The stored labels, in insertion order.
    pub fn get_words(&self) -> (r: Vec<String>)
        ensures
            views(r@) == self.labels(),
    {
        let mut r: Vec<String> = Vec::new();
        let mut i: usize = 0;
        while i < self.words.len()
            invariant
                i <= self.words.len(),
                views(r@) == views(self.words@).subrange(0, i as int),
            decreases self.words.len() - i,
        {
            let w = self.words[i].clone();
            let ghost before = r@;
            r.push(w);
            proof {
                lemma_views_push(before, w);
            }
            i = i + 1;
            proof {
                assert(views(r@) =~= views(self.words@).subrange(0, i as int));
            }
        }
        proof {
            assert(views(self.words@).subrange(0, i as int) =~= views(self.words@));
        }
        r
    }

    /// Appends `word` to the label table under the next handle, on the
    /// condition that its vector, of length `vector_len`, has the store's
    /// dimension; the caller inserts the vector under the handle returned.
    /// A vector of another length is refused and nothing changes.
    pub fn add(&mut self, word: String, vector_len: usize) -> (r: Result<usize, StoreError>)
        ensures
            final(self).spec_dimension() == old(self).spec_dimension(),
            final(self).spec_url() == old(self).spec_url(),
            vector_len == old(self).spec_dimension() ==> r == Ok::<usize, StoreError>(
                old(self).count() as usize,
            ) && final(self).labels() == old(self).labels().push(word@) && final(self).labels()[old(
                self,
            ).count() as int] == word@ && final(self).count() == old(self).count() + 1,
            vector_len != old(self).spec_dimension() ==> r == Err::<usize, StoreError>(
                StoreError::DimensionMismatch,
            ) && final(self).labels() == old(self).labels(),
    {
        if vector_len != self.dimension {
            return Err(StoreError::DimensionMismatch);
        }
        let handle = self.words.len();
        let ghost before = self.words@;
        self.words.push(word);
        proof {
            lemma_views_push(before, word);
        }
        Ok(handle)
    }

    /// Appends a whole batch of tokens, whose vectors have the lengths
    /// `vector_lens`, under consecutive handles starting at the one returned.
    /// The batch is refused as a whole, and nothing changes, where the
    /// provider did not answer with one vector per token, or where a vector
    /// does not have the store's dimension.
    pub fn add_batch(&mut self, batch: &Vec<String>, vector_lens: &Vec<usize>) -> (r: Result<
        usize,
        StoreError,
    >)
        ensures
            final(self).spec_dimension() == old(self).spec_dimension(),
            final(self).spec_url() == old(self).spec_url(),
            vector_lens@.len() != batch@.len() ==> r == Err::<usize, StoreError>(
                StoreError::DeserializationError,
            ),
            vector_lens@.len() == batch@.len() && (exists|i: int|
                0 <= i < vector_lens@.len() && vector_lens@[i] != old(self).spec_dimension())
                ==> r == Err::<usize, StoreError>(StoreError::DimensionMismatch),
            r is Err ==> final(self).labels() == old(self).labels(),
            vector_lens@.len() == batch@.len() && (forall|i: int|
                0 <= i < vector_lens@.len() ==> vector_lens@[i] == old(self).spec_dimension())
                ==> r == Ok::<usize, StoreError>(old(self).count() as usize) && final(self).labels()
                == old(self).labels() + views(batch@),
    {
        if vector_lens.len() != batch.len() {
            return Err(StoreError::DeserializationError);
        }
        let mut i: usize = 0;
        while i < vector_lens.len()
            invariant
                i <= vector_lens.len(),
                vector_lens@.len() == batch@.len(),
                forall|t: int| 0 <= t < i ==> vector_lens@[t] == self.dimension,
            decreases vector_lens.len() - i,
        {
            if vector_lens[i] != self.dimension {
                return Err(StoreError::DimensionMismatch);
            }
            i = i + 1;
        }
        let first = self.words.len();
        let ghost start = views(self.words@);
        let mut j: usize = 0;
        while j < batch.len()
            invariant
                j <= batch.len(),
                self.dimension == old(self).dimension,
                self.url == old(self).url,
                start == views(old(self).words@),
                views(self.words@) == start + views(batch@).subrange(0, j as int),
            decreases batch.len() - j,
        {
            let w = batch[j].clone();
            let ghost before = self.words@;
            self.words.push(w);
            proof {
                lemma_views_push(before, w);
            }
            j = j + 1;
            proof {
                assert(views(self.words@) =~= start + views(batch@).subrange(0, j as int));
            }
        }
        proof {
            assert(views(batch@).subrange(0, j as int) =~= views(batch@));
        }
        Ok(first)
    }

    /// The labels of the `top_k` nearest candidates, nearest first, at equal
    /// distance the earlier insertion first, each candidate counted once.
    /// The candidates are what the spatial index found for the query, a
    /// vector of length `query_len`. Fails with `DimensionMismatch` where the
    /// query does not have the store's dimension, and with `UnknownHandle`
    /// where a handle that would be returned was never assigned by the store.
    pub fn find_similers(&self, query_len: usize, candidates: &Vec<Neighbor>, top_k: usize) -> (r:
        Result<Vec<String>, StoreError>)
        ensures
            query_len != self.spec_dimension() ==> r == Err::<Vec<String>, StoreError>(
                StoreError::DimensionMismatch,
            ),
            query_len == self.spec_dimension() ==> forall|ranked: Seq<Neighbor>|
                #![auto]
                is_top_k(candidates@, top_k as nat, ranked) ==> (match r {
                    Ok(words) => all_known(self.count(), ranked) && views(words@) == labels_of(
                        self.labels(),
                        ranked,
                    ),
                    Err(e) => e == StoreError::UnknownHandle && !all_known(self.count(), ranked),
                }),
    {
        if query_len != self.dimension {
            return Err(StoreError::DimensionMismatch);
        }
        let ranked = rank_neighbors(candidates, top_k);
        proof {
            assert forall|other: Seq<Neighbor>| is_top_k(candidates@, top_k as nat, other) implies other
                == ranked@ by {
                lemma_top_k_unique(candidates@, top_k as nat, other, ranked@);
            }
        }
        let mut out: Vec<String> = Vec::new();
        let mut i: usize = 0;
        while i < ranked.len()
            invariant
                i <= ranked.len(),
                query_len == self.dimension,
                is_top_k(candidates@, top_k as nat, ranked@),
                all_known(self.count(), ranked@.subrange(0, i as int)),
                views(out@) == labels_of(self.labels(), ranked@.subrange(0, i as int)),
            decreases ranked.len() - i,
        {
            let h = ranked[i].1;
            if h >= self.words.len() {
                proof {
                    assert(self.count() == self.words@.len());
                    assert(!all_known(self.count(), ranked@)) by {
                        assert(ranked@[i as int].1 >= self.count());
                    }
                    assert forall|other: Seq<Neighbor>|
                        is_top_k(candidates@, top_k as nat, other) implies !all_known(
                        self.count(),
                        other,
                    ) by {
                        lemma_top_k_unique(candidates@, top_k as nat, other, ranked@);
                    }
                }
                return Err(StoreError::UnknownHandle);
            }
            let w = self.words[h].clone();
            let ghost before = out@;
            out.push(w);
            proof {
                lemma_views_push(before, w);
                assert(ranked@.subrange(0, i + 1) =~= ranked@.subrange(0, i as int).push(
                    ranked@[i as int],
                ));
                assert(labels_of(self.labels(), ranked@.subrange(0, i + 1)) =~= labels_of(
                    self.labels(),
                    ranked@.subrange(0, i as int),
                ).push(self.labels()[h as int]));
                assert(all_known(self.count(), ranked@.subrange(0, i + 1))) by {
                    assert forall|t: int| 0 <= t < i + 1 implies (#[trigger] ranked@.subrange(
                        0,
                        i + 1,
                    )[t]).1 < self.count() by {
                        if t < i {
                            assert(ranked@.subrange(0, i + 1)[t] == ranked@.subrange(0, i as int)[t]);
                        }
                    }
                }
            }
            i = i + 1;
        }
        proof {
            assert(ranked@.subrange(0, i as int) =~= ranked@);
            assert forall|other: Seq<Neighbor>|
                is_top_k(candidates@, top_k as nat, other) implies all_known(self.count(), other)
                && views(out@) == labels_of(self.labels(), other) by {
                lemma_top_k_unique(candidates@, top_k as nat, other, ranked@);
            }
        }
        Ok(out)
    }
}

} // verus!
