//! Payload shapes of the relationship-tuple store protocol: tuples,
//! tuple-key lists, and the batching of writes.

use vstd::prelude::*;

verus! {

/// A relationship: user, relation, object.
#[derive(Debug, Clone, PartialEq, Eq)]
pub struct OpenFgaTuple {
    pub user: String,
    pub relation: String,
    pub object: String,
}

/// A fresh copy of a tuple.
fn tuple_dup(t: &OpenFgaTuple) -> (r: OpenFgaTuple)
    ensures
        r == *t,
{
    OpenFgaTuple { user: t.user.clone(), relation: t.relation.clone(), object: t.object.clone() }
}

/// A list of tuple keys, as one write or delete payload carries it.
#[derive(Debug, Clone, PartialEq, Eq)]
pub struct TupleKeys {
    pub tuple_keys: Vec<OpenFgaTuple>,
}

impl TupleKeys {
    pub fn new(tuples: Vec<OpenFgaTuple>) -> (r: TupleKeys)
        ensures
            r.tuple_keys@ == tuples@,
    {
        TupleKeys { tuple_keys: tuples }
    }

    pub fn empty() -> (r: TupleKeys)
        ensures
            r.tuple_keys@ == Seq::<OpenFgaTuple>::empty(),
    {
        TupleKeys { tuple_keys: Vec::new() }
    }

    pub fn is_empty(&self) -> (r: bool)
        ensures
            r == (self.tuple_keys@.len() == 0),
    {
        self.tuple_keys.len() == 0
    }

    pub fn len(&self) -> (n: usize)
        ensures
            n == self.tuple_keys@.len(),
    {
        self.tuple_keys.len()
    }

    /// Cut the list into batches of at most `batch_size` tuples: every
    /// batch but the last is full, order is kept, nothing is lost, and
    /// an empty list yields no batch.
    pub fn batches(&self, batch_size: usize) -> (r: Vec<TupleKeys>)
        requires
            batch_size >= 1,
        ensures
            forall|i: int|
                0 <= i < r@.len() ==> (#[trigger] r@[i]).tuple_keys@ == self.tuple_keys@.subrange(
                    i * batch_size,
                    if i * batch_size + batch_size <= self.tuple_keys@.len() {
                        i * batch_size + batch_size
                    } else {
                        self.tuple_keys@.len() as int
                    },
                ),
            self.tuple_keys@.len() == 0 ==> r@.len() == 0,
            self.tuple_keys@.len() >= 1 ==> (r@.len() - 1) * batch_size < self.tuple_keys@.len()
                <= r@.len() * batch_size,
    {
        let len: usize = self.tuple_keys.len();
        let mut r: Vec<TupleKeys> = Vec::new();
        let mut done: usize = 0;
        proof {
            assert(r@.len() * batch_size == 0) by (nonlinear_arith)
                requires
                    r@.len() == 0,
            ;
        }
        while done < len
            invariant
                batch_size >= 1,
                len == self.tuple_keys@.len(),
                0 <= done <= len,
                done == r@.len() * batch_size || (done == len && r@.len() >= 1 && (r@.len() - 1)
                    * batch_size < len <= r@.len() * batch_size),
                forall|i: int|
                    0 <= i < r@.len() ==> (#[trigger] r@[i]).tuple_keys@
                        == self.tuple_keys@.subrange(
                        i * batch_size,
                        if i * batch_size + batch_size <= len {
                            i * batch_size + batch_size
                        } else {
                            len as int
                        },
                    ),
            decreases len - done,
        {
            let ghost k = r@.len() as int;
            let end: usize = if batch_size >= len - done {
                len
            } else {
                done + batch_size
            };
            let mut chunk: Vec<OpenFgaTuple> = Vec::new();
            let mut j: usize = done;
            while j < end
                invariant
                    done <= j <= end <= len,
                    len == self.tuple_keys@.len(),
                    chunk@ == self.tuple_keys@.subrange(done as int, j as int),
                decreases end - j,
            {
                chunk.push(tuple_dup(&self.tuple_keys[j]));
                proof {
                    assert(chunk@ =~= self.tuple_keys@.subrange(done as int, j as int + 1));
                }
                j = j + 1;
            }
            let ghost r_pre = r@;
            r.push(TupleKeys { tuple_keys: chunk });
            proof {
                assert(done == k * batch_size);
                assert(r@.len() == k + 1);
                assert(r@[k].tuple_keys@ =~= self.tuple_keys@.subrange(done as int, end as int));
                assert((k + 1) * batch_size == k * batch_size + batch_size) by (nonlinear_arith);
                assert forall|i: int|
                    0 <= i < r@.len() implies (#[trigger] r@[i]).tuple_keys@
                    == self.tuple_keys@.subrange(
                    i * batch_size,
                    if i * batch_size + batch_size <= len {
                        i * batch_size + batch_size
                    } else {
                        len as int
                    },
                ) by {
                    if i < k {
                        assert(r@[i] == r_pre[i]);
                    }
                }
            }
            done = end;
        }
        proof {
            if len == 0 {
                let rl = r@.len() as int;
                assert(rl == 0) by (nonlinear_arith)
                    requires
                        rl >= 0,
                        batch_size >= 1,
                        done == 0,
                        done == rl * batch_size || (rl >= 1 && (rl - 1) * batch_size < 0),
                ;
            }
            if len >= 1 {
                let rl = r@.len() as int;
                assert(rl >= 1) by (nonlinear_arith)
                    requires
                        rl >= 0,
                        batch_size >= 1,
                        len >= 1,
                        done == len,
                        done == rl * batch_size || (done == len && rl >= 1 && (rl - 1) * batch_size
                            < len <= rl * batch_size),
                ;
                assert((rl - 1) * batch_size < len <= rl * batch_size) by (nonlinear_arith)
                    requires
                        rl >= 1,
                        batch_size >= 1,
                        len >= 1,
                        done == len,
                        done == rl * batch_size || (done == len && rl >= 1 && (rl - 1) * batch_size
                            < len <= rl * batch_size),
                ;
            }
        }
        r
    }
}

/// One write command: tuples to write, tuples to delete, and the id of
/// the authorization model they belong to.
#[derive(Debug, PartialEq, Eq)]
pub struct WriteTuplesPayload<'a> {
    pub writes: TupleKeys,
    pub deletes: TupleKeys,
    pub authorization_model_id: &'a str,
}

impl<'a> WriteTuplesPayload<'a> {
    pub fn new(writes: TupleKeys, deletes: TupleKeys, authorization_model_id: &'a str) -> (r:
        WriteTuplesPayload<'a>)
        ensures
            r.writes == writes,
            r.deletes == deletes,
            r.authorization_model_id@ == authorization_model_id@,
    {
        WriteTuplesPayload { writes, deletes, authorization_model_id }
    }
}

} // verus!
