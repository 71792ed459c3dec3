//! Paths of named branches from the root of a schema, with the hash that
//! identifies a path and its printed form.
use vstd::prelude::*;
use vstd::std_specs::hash::DefaultHasherAdditionalSpecFns;
use vstd::string::{StringExecFns, StringSliceAdditionalSpecFns};
use std::collections::hash_map::DefaultHasher;
use std::hash::Hasher;
use vstd::arithmetic::power::pow;
use vstd::layout::size_of;

verus! {

/// A branch of a schema: its own name, and the branch it hangs from. The
/// root is the branch with the empty name and no parent.
#[derive(Clone, Hash, PartialEq, Eq)]
pub struct Branch<'a> {
    namespace: &'static str,
    prev: Option<&'a Branch<'a>>,
}

/// The bytes of `value`, least significant first, `n` of them.
pub open spec fn le_bytes(value: nat, n: nat) -> Seq<u8> {
    Seq::new(n, |i: int| ((value as int / pow(256, i as nat)) % 256) as u8)
}

/// `bytes` are `value` as the machine stores a `usize`: as many bytes as a
/// `usize` has, least significant first on a little-endian machine and
/// last on a big-endian one.
pub open spec fn native_usize_bytes(value: usize, bytes: Seq<u8>) -> bool {
    let le = le_bytes(value as nat, size_of::<usize>());
    bytes == le || bytes == le.reverse()
}

/// `usize::to_ne_bytes`: the bytes of `value` in the machine's byte order,
/// as many as a `usize` has. Its documentation gives the native order,
/// and Rust's targets are little-endian or big-endian; which of the two
/// this machine is, is not stated.
#[verifier::external_body]
fn usize_native_bytes(value: usize) -> (bytes: Vec<u8>)
    ensures
        native_usize_bytes(value, bytes@),
{
    value.to_ne_bytes().to_vec()
}

impl<'a> Branch<'a> {
    /// The names from the root down to this branch, the root's included.
    pub closed spec fn path(self) -> Seq<Seq<char>>
        decreases self,
    {
        match self.prev {
            None => seq![self.namespace@],
            Some(prev) => prev.path().push(self.namespace@),
        }
    }

    /// The printed form: the names from the root down, each preceded by
    /// `:` but the root's.
    pub closed spec fn text(self) -> Seq<char>
        decreases self,
    {
        match self.prev {
            None => self.namespace@,
            Some(prev) => prev.text() + seq![':'] + self.namespace@,
        }
    }

    /// The number of branches above this one.
    pub closed spec fn depth(self) -> nat
        decreases self,
    {
        match self.prev {
            None => 0,
            Some(prev) => prev.depth() + 1,
        }
    }

    /// What hashing a branch feeds the hasher, as a derived `Hash` does:
    /// the name's bytes and the `0xff` that ends a string, the parent's
    /// discriminant as the bytes `none` (for no parent) or `some` (for a
    /// parent), then the parent.
    pub closed spec fn hash_writes(self, none: Seq<u8>, some: Seq<u8>) -> Seq<Seq<u8>>
        decreases self,
    {
        let own = seq![self.namespace.spec_bytes(), seq![0xffu8]];
        match self.prev {
            None => own + seq![none],
            Some(prev) => own + seq![some] + prev.hash_writes(none, some),
        }
    }

    /// The root branch.
    pub fn root() -> (branch: Self)
        ensures
            branch.path() == seq![Seq::<char>::empty()],
            branch.text() == Seq::<char>::empty(),
            branch.depth() == 0,
    {
        let branch = Branch { namespace: "", prev: None };
        proof {
            reveal_strlit("");
            assert(branch.namespace@ =~= Seq::<char>::empty());
        }
        branch
    }

    /// The branch named `namespace` under this one.
    pub fn child(&'a self, namespace: &'static str) -> (branch: Branch<'a>)
        ensures
            branch.path() == self.path().push(namespace@),
            branch.text() == self.text() + seq![':'] + namespace@,
            branch.depth() == self.depth() + 1,
    {
        Branch { namespace, prev: Some(self) }
    }

    /// The name of this branch.
    pub fn namespace(&self) -> (name: &'static str)
        ensures
            name@ == self.path().last(),
    {
        self.namespace
    }

    /// The hash of this branch, from a `DefaultHasher` fed what a derived
    /// `Hash` feeds it; the discriminants of the parents go in as a `usize`
    /// in the machine's byte order.
    pub fn hash_128(&self) -> (hash: u128)
        ensures
            exists|none: Seq<u8>, some: Seq<u8>|
                {
                    &&& native_usize_bytes(0, none)
                    &&& native_usize_bytes(1, some)
                    &&& hash == DefaultHasher::spec_finish(self.hash_writes(none, some)) as u128
                },
    {
        let mut hasher = DefaultHasher::new();
        let end_of_str: [u8; 1] = [0xff];
        let none = usize_native_bytes(0);
        let some = usize_native_bytes(1);
        let mut current: &Branch = self;
        proof {
            assert(end_of_str@ =~= seq![0xffu8]);
            assert(hasher@ + current.hash_writes(none@, some@) =~= self.hash_writes(none@, some@));
        }
        loop
            invariant_except_break
                hasher@ + current.hash_writes(none@, some@) == self.hash_writes(none@, some@),
            invariant
                end_of_str@ == seq![0xffu8],
            ensures
                hasher@ == self.hash_writes(none@, some@),
            decreases current.depth(),
        {
            let ghost before = hasher@;
            hasher.write(current.namespace.as_bytes());
            hasher.write(&end_of_str);
            match current.prev {
                None => {
                    hasher.write(none.as_slice());
                    proof {
                        assert(hasher@ =~= before + current.hash_writes(none@, some@));
                    }
                    break;
                },
                Some(prev) => {
                    hasher.write(some.as_slice());
                    proof {
                        assert(before + current.hash_writes(none@, some@) =~= hasher@ + prev.hash_writes(
                            none@,
                            some@,
                        ));
                    }
                    current = prev;
                },
            }
        }
        hasher.finish() as u128
    }

    /// The printed form of this branch: the names from the root down, each
    /// preceded by `:` but the root's.
    pub fn debug_string(&self) -> (text: String)
        ensures
            text@ == self.text(),
        decreases self.depth(),
    {
        match self.prev {
            None => self.namespace.to_owned(),
            Some(prev) => {
                let mut text = prev.debug_string();
                text.append(":");
                text.append(self.namespace);
                proof {
                    reveal_strlit(":");
                }
                text
            },
        }
    }
}

/// Two branches with the same path hash alike: what the hasher is fed
/// depends on the names along the path alone.
proof fn lemma_hash_depends_on_path<'a, 'b>(a: Branch<'a>, b: Branch<'b>, none: Seq<u8>, some: Seq<u8>)
    requires
        a.path() == b.path(),
    ensures
        a.hash_writes(none, some) == b.hash_writes(none, some),
    decreases a.depth(),
{
    if a.prev is Some && b.prev is Some {
        let pa = a.prev->0;
        let pb = b.prev->0;
        assert(pa.path() =~= a.path().drop_last());
        assert(pb.path() =~= b.path().drop_last());
        assert(a.namespace@ == a.path().last());
        assert(b.namespace@ == b.path().last());
        lemma_hash_depends_on_path(*pa, *pb, none, some);
    } else if a.prev is None && b.prev is None {
        assert(a.namespace@ == a.path()[0]);
        assert(b.namespace@ == b.path()[0]);
    } else if a.prev is Some {
        lemma_path_len(*a.prev->0);
        assert(a.path().len() == a.prev->0.path().len() + 1);
        assert(b.path().len() == 1);
    } else {
        lemma_path_len(*b.prev->0);
        assert(b.path().len() == b.prev->0.path().len() + 1);
        assert(a.path().len() == 1);
    }
}

/// A path holds one name per branch from the root down.
pub proof fn lemma_path_len<'a>(branch: Branch<'a>)
    ensures
        branch.path().len() == branch.depth() + 1,
    decreases branch.depth(),
{
    if let Some(prev) = branch.prev {
        lemma_path_len(*prev);
    }
}

/// Branches with the same path hash alike, whatever bytes the machine
/// stores the discriminants as.
pub proof fn lemma_hash_128_same_path<'a, 'b>(a: Branch<'a>, b: Branch<'b>, none: Seq<u8>, some: Seq<u8>)
    requires
        a.path() == b.path(),
    ensures
        DefaultHasher::spec_finish(a.hash_writes(none, some)) == DefaultHasher::spec_finish(
            b.hash_writes(none, some),
        ),
{
    lemma_hash_depends_on_path(a, b, none, some);
}

} // verus!
