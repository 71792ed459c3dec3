//! Introspection of a document: how its bytes are spent, by path and by
//! encoding.
use vstd::prelude::*;
use vstd::string::{StringExecFns, StringSliceAdditionalSpecFns};
use vstd::utf8::decode_utf8;
use crate::branch::array_branch::{
    ArrayBool, ArrayEnumVariant, ArrayFloat, ArrayInteger, ArrayIntegerEncoding, ArrayNode,
    DynArrayBranch, FloatEncoding,
};
use crate::branch::Ident;
use crate::branch::root_branch::{read_root, read_root_spec, DynRootBranch, RootNode};
use crate::branch::extent::{
    array_weight, kids_weight, lemma_document_extent, named_weight, root_kids_weight, root_named_weight,
    root_weight,
};
use crate::error::{DecodeError, DecodeResult};

verus! {

/// One piece of column data: the path of names to it, the path of kinds
/// (ending in the encoding of the data), the encoding, and the number of
/// bytes.
pub type LeafSpec = (Seq<char>, Seq<char>, Seq<char>, nat);

/// A path: the names and the kinds from the root down.
pub type PathSpec = (Seq<char>, Seq<char>);

/// Two parts of a path joined by `.`, an empty part left out.
pub open spec fn join(s: Seq<char>, x: Seq<char>) -> Seq<char> {
    if s.len() == 0 {
        x
    } else if x.len() == 0 {
        s
    } else {
        s + seq!['.'] + x
    }
}

/// The path one step further down: a name and the kind of the branch
/// stepped out of.
pub open spec fn step(p: PathSpec, name: Seq<char>, kind: Seq<char>) -> PathSpec {
    (join(p.0, name), join(p.1, kind))
}

/// The one leaf of a branch that holds data bytes.
pub open spec fn leaf(p: PathSpec, encoding: Seq<char>, size: nat) -> Seq<LeafSpec> {
    seq![(p.0, join(p.1, encoding), encoding, size)]
}

/// The digit that `d < 10` stands for.
pub open spec fn digit(d: nat) -> char {
    ((d + 48) as u32) as char
}

/// The decimal form of `n`.
pub open spec fn decimal(n: nat) -> Seq<char>
    decreases n,
{
    if n < 10 {
        seq![digit(n)]
    } else {
        decimal(n / 10).push(digit(n % 10))
    }
}

/// The name of an integer encoding.
pub open spec fn integer_label(encoding: ArrayIntegerEncoding) -> Seq<char> {
    match encoding {
        ArrayIntegerEncoding::PrefixVarInt => "Prefix Varint"@,
        ArrayIntegerEncoding::Simple16 => "Simple16"@,
        ArrayIntegerEncoding::U8 => "U8 Fixed"@,
    }
}

/// The name of a float encoding. The two zfp encodings carry each other's
/// width in their names.
pub open spec fn float_label(encoding: FloatEncoding) -> Seq<char> {
    match encoding {
        FloatEncoding::DoubleGorilla => "Gorilla"@,
        FloatEncoding::F32 => "Fixed F32"@,
        FloatEncoding::F64 => "Fixed F64"@,
        FloatEncoding::Zfp32 => "Zfp 64"@,
        FloatEncoding::Zfp64 => "Zfp 32"@,
    }
}

/// The leaves of an array branch at path `p`, in the order the branch
/// lists its children.
pub open spec fn array_leaves(p: PathSpec, node: ArrayNode) -> Seq<LeafSpec>
    decreases node, 0nat,
{
    match node {
        ArrayNode::Object(fields) => named_array_leaves(p, fields, "Object"@, 0),
        ArrayNode::Tuple(kids) => tuple_array_leaves(p, kids, 0),
        ArrayNode::Array0 => Seq::empty(),
        ArrayNode::Array(len, values) => array_leaves(step(p, "len"@, "Array"@), *len) + array_leaves(
            step(p, "values"@, "Array"@),
            *values,
        ),
        ArrayNode::ArrayFixed(len, values) => array_leaves(
            step(p, seq!['['] + decimal(len as nat) + seq![']'], "Array Fixed"@),
            *values,
        ),
        ArrayNode::Map0 => Seq::empty(),
        ArrayNode::Mapping(len, keys, values) => array_leaves(step(p, "len"@, "Map"@), *len)
            + array_leaves(step(p, "keys"@, "Map"@), *keys) + array_leaves(
            step(p, "values"@, "Map"@),
            *values,
        ),
        ArrayNode::Integer(bytes, encoding) => leaf(p, integer_label(encoding), bytes.len()),
        ArrayNode::Nullable(opt, values) => array_leaves(step(p, "opt"@, "Nullable"@), *opt)
            + array_leaves(step(p, "values"@, "Nullable"@), *values),
        ArrayNode::PackedBool(bytes) => leaf(p, "Packed Boolean"@, bytes.len()),
        ArrayNode::RLEBool(_, runs) => array_leaves(step(p, "runs"@, "Bool RLE"@), *runs),
        ArrayNode::Float(encoding, bytes) => leaf(p, float_label(encoding), bytes.len()),
        ArrayNode::Void => Seq::empty(),
        ArrayNode::String(bytes) => leaf(p, "UTF-8"@, bytes.len()),
        ArrayNode::Enum(discriminants, variants) => array_leaves(
            step(p, "discriminants"@, "Enum"@),
            *discriminants,
        ) + named_array_leaves(p, variants, "Enum"@, 0),
        ArrayNode::RLE(runs, values) => array_leaves(step(p, "runs"@, "RLE"@), *runs) + array_leaves(
            step(p, "values"@, "RLE"@),
            *values,
        ),
        ArrayNode::Dictionary(indices, values) => array_leaves(
            step(p, "indices"@, "Dictionary"@),
            *indices,
        ) + array_leaves(step(p, "values"@, "Dictionary"@), *values),
    }
}

/// The leaves of the named children `i` and on of an array branch of kind
/// `kind`, each at the path of its name.
pub open spec fn named_array_leaves(
    p: PathSpec,
    fields: Seq<(Seq<u8>, ArrayNode)>,
    kind: Seq<char>,
    i: int,
) -> Seq<LeafSpec>
    decreases fields, fields.len() - i,
{
    if 0 <= i < fields.len() {
        array_leaves(step(p, decode_utf8(fields[i].0), kind), fields[i].1) + named_array_leaves(
            p,
            fields,
            kind,
            i + 1,
        )
    } else {
        Seq::empty()
    }
}

/// The leaves of the children `i` and on of a tuple array branch, each at
/// the path of its position.
pub open spec fn tuple_array_leaves(p: PathSpec, kids: Seq<ArrayNode>, i: int) -> Seq<LeafSpec>
    decreases kids, kids.len() - i,
{
    if 0 <= i < kids.len() {
        array_leaves(step(p, decimal(i as nat), "Tuple"@), kids[i]) + tuple_array_leaves(p, kids, i + 1)
    } else {
        Seq::empty()
    }
}

/// The leaves of a root branch at path `p`: those of the arrays inside it.
pub open spec fn root_leaves(p: PathSpec, node: RootNode) -> Seq<LeafSpec>
    decreases node, 0nat,
{
    match node {
        RootNode::Object(fields) => named_root_leaves(p, fields, 0),
        RootNode::Enum(name, value) => root_leaves(step(p, decode_utf8(name), "Enum"@), *value),
        RootNode::Mapping(_, keys, values) => array_leaves(step(p, "keys"@, "Map"@), keys)
            + array_leaves(step(p, "values"@, "Values"@), values),
        RootNode::Tuple(kids) => tuple_root_leaves(p, kids, 0),
        RootNode::Map1(key, value) => root_leaves(step(p, "key"@, "Map1"@), *key) + root_leaves(
            step(p, "value"@, "Map1"@),
            *value,
        ),
        RootNode::Array(len, values) => array_leaves(
            step(p, seq!['['] + decimal(len as nat) + seq![']'], "Array"@),
            values,
        ),
        RootNode::Array1(item) => root_leaves(step(p, "1"@, "Array1"@), *item),
        _ => Seq::empty(),
    }
}

/// The leaves of the fields `i` and on of a root object, each at the path
/// of its name.
pub open spec fn named_root_leaves(p: PathSpec, fields: Seq<(Seq<u8>, RootNode)>, i: int) -> Seq<
    LeafSpec,
>
    decreases fields, fields.len() - i,
{
    if 0 <= i < fields.len() {
        root_leaves(step(p, decode_utf8(fields[i].0), "Object"@), fields[i].1) + named_root_leaves(
            p,
            fields,
            i + 1,
        )
    } else {
        Seq::empty()
    }
}

/// The leaves of the children `i` and on of a root tuple, each at the path
/// of its position.
pub open spec fn tuple_root_leaves(p: PathSpec, kids: Seq<RootNode>, i: int) -> Seq<LeafSpec>
    decreases kids, kids.len() - i,
{
    if 0 <= i < kids.len() {
        root_leaves(step(p, decimal(i as nat), "Tuple"@), kids[i]) + tuple_root_leaves(p, kids, i + 1)
    } else {
        Seq::empty()
    }
}

/// What a breakdown has gathered: by path, the kinds and size of each
/// piece of data; by encoding, how many pieces and how many bytes, each
/// encoding listed where first met; and the size of the whole document.
pub type BreakdownSpec = (Seq<(Seq<char>, Seq<char>, nat)>, Seq<(Seq<char>, nat, nat)>, nat);

/// Where an encoding is first listed, if it is.
pub open spec fn type_index(by_type: Seq<(Seq<char>, nat, nat)>, key: Seq<char>) -> Option<int>
    decreases by_type.len(),
{
    if by_type.len() == 0 {
        None
    } else {
        match type_index(by_type.drop_last(), key) {
            Some(i) => Some(i),
            None => if by_type.last().0 == key {
                Some(by_type.len() - 1)
            } else {
                None
            },
        }
    }
}

/// `type_index` points at a listing of the encoding, the first one; and it
/// is `None` only where the encoding is not listed.
proof fn lemma_type_index(by_type: Seq<(Seq<char>, nat, nat)>, key: Seq<char>)
    ensures
        type_index(by_type, key) matches Some(i) ==> 0 <= i < by_type.len() && by_type[i].0 == key
            && forall|j: int| 0 <= j < i ==> by_type[j].0 != key,
        type_index(by_type, key) is None <==> forall|j: int| 0 <= j < by_type.len() ==> by_type[j].0 != key,
    decreases by_type.len(),
{
    if by_type.len() > 0 {
        lemma_type_index(by_type.drop_last(), key);
        assert forall|j: int| 0 <= j < by_type.len() - 1 implies by_type.drop_last()[j] == by_type[j] by {}
    }
}

/// The first listing of an encoding is where `type_index` points.
proof fn lemma_type_index_first(by_type: Seq<(Seq<char>, nat, nat)>, key: Seq<char>, i: int)
    requires
        0 <= i < by_type.len(),
        by_type[i].0 == key,
        forall|j: int| 0 <= j < i ==> by_type[j].0 != key,
    ensures
        type_index(by_type, key) == Some(i),
{
    lemma_type_index(by_type, key);
    if let Some(k) = type_index(by_type, key) {
        if k < i {
            assert(by_type[k].0 != key);
        } else if k > i {
            assert(by_type[i].0 != key);
        }
    }
}

/// Whether a path is listed already.
pub open spec fn has_path(by_path: Seq<(Seq<char>, Seq<char>, nat)>, names: Seq<char>) -> bool {
    exists|i: int| 0 <= i < by_path.len() && #[trigger] by_path[i].0 == names
}

/// Adding a piece of data to a breakdown.
pub open spec fn add_spec(b: BreakdownSpec, l: LeafSpec) -> BreakdownSpec {
    let by_type = match type_index(b.1, l.2) {
        Some(i) => b.1.update(i, (l.2, b.1[i].1 + 1, b.1[i].2 + l.3)),
        None => b.1.push((l.2, 1, l.3)),
    };
    (b.0.push((l.0, l.1, l.3)), by_type, b.2)
}

/// Adding a piece of data is defined: its path is new, and the counts and
/// sizes by encoding stay within a `usize`.
pub open spec fn add_ok(b: BreakdownSpec, l: LeafSpec) -> bool {
    &&& !has_path(b.0, l.0)
    &&& l.3 <= usize::MAX
    &&& match type_index(b.1, l.2) {
        Some(i) => b.1[i].1 + 1 <= usize::MAX && b.1[i].2 + l.3 <= usize::MAX,
        None => true,
    }
}

/// Adding pieces of data one after another.
pub open spec fn add_all(b: BreakdownSpec, leaves: Seq<LeafSpec>) -> BreakdownSpec
    decreases leaves.len(),
{
    if leaves.len() == 0 {
        b
    } else {
        add_spec(add_all(b, leaves.drop_last()), leaves.last())
    }
}

/// Every addition of `add_all` is defined.
pub open spec fn adds_ok(b: BreakdownSpec, leaves: Seq<LeafSpec>) -> bool
    decreases leaves.len(),
{
    if leaves.len() == 0 {
        true
    } else {
        adds_ok(b, leaves.drop_last()) && add_ok(add_all(b, leaves.drop_last()), leaves.last())
    }
}

/// Adding two runs of pieces is adding the first, then the second.
pub proof fn lemma_add_all_concat(b: BreakdownSpec, x: Seq<LeafSpec>, y: Seq<LeafSpec>)
    ensures
        add_all(b, x + y) == add_all(add_all(b, x), y),
        adds_ok(b, x + y) == (adds_ok(b, x) && adds_ok(add_all(b, x), y)),
    decreases y.len(),
{
    if y.len() == 0 {
        assert(x + y =~= x);
    } else {
        assert((x + y).drop_last() =~= x + y.drop_last());
        assert((x + y).last() == y.last());
        lemma_add_all_concat(b, x, y.drop_last());
    }
}


// ---------------------------------------------------------------------------
// Gathering the breakdown
// ---------------------------------------------------------------------------

/// A path from the root: the names of the branches and their kinds, each
/// part joined by `.`.
pub struct Path {
    pub names: String,
    pub types: String,
}

impl View for Path {
    type V = PathSpec;

    open spec fn view(&self) -> PathSpec {
        (self.names@, self.types@)
    }
}

impl Path {
    /// The path of the root.
    pub fn new() -> (path: Self)
        ensures
            path@ == (Seq::<char>::empty(), Seq::<char>::empty()),
    {
        Path { names: String::new(), types: String::new() }
    }

    /// `s` and `x` joined by `.`, an empty one left out.
    fn c(s: &String, x: &str) -> (joined: String)
        ensures
            joined@ == join(s@, x@),
    {
        if s.as_str().is_empty() {
            x.to_owned()
        } else if x.is_empty() {
            s.clone()
        } else {
            let mut joined = s.clone();
            joined.append(".");
            joined.append(x);
            proof {
                reveal_strlit(".");
            }
            joined
        }
    }

    /// The path one step down: into the child `name` of a branch of kind
    /// `type_id`.
    pub fn a(&self, name: &str, type_id: &str) -> (path: Self)
        ensures
            path@ == step(self@, name@, type_id@),
    {
        let names = Path::c(&self.names, name);
        let types = Path::c(&self.types, type_id);
        Path { names, types }
    }
}

/// `usize::to_string`: the decimal form of `n`, as `Display` for integers
/// writes it.
#[verifier::external_body]
fn decimal_text(n: usize) -> (text: String)
    ensures
        text@ == decimal(n as nat),
{
    n.to_string()
}

/// The kinds along the path to a piece of data, and its size.
pub struct PathAggregation {
    pub types: String,
    pub size: usize,
}

/// The number of pieces of data of one encoding, and their total size.
pub struct TypeAggregation {
    pub size: usize,
    pub count: usize,
}

/// How the bytes of a document are spent.
pub struct SizeBreakdown {
    by_path: Vec<(String, PathAggregation)>,
    by_type: Vec<(String, TypeAggregation)>,
    total: usize,
}

impl View for SizeBreakdown {
    type V = BreakdownSpec;

    closed spec fn view(&self) -> BreakdownSpec {
        (paths_view(self.by_path@), types_view(self.by_type@), self.total as nat)
    }
}

/// The entries by path, as text and sizes.
pub open spec fn paths_view(v: Seq<(String, PathAggregation)>) -> Seq<(Seq<char>, Seq<char>, nat)> {
    Seq::new(v.len(), |i: int| (v[i].0@, v[i].1.types@, v[i].1.size as nat))
}

/// The entries by encoding, as text and numbers.
pub open spec fn types_view(v: Seq<(String, TypeAggregation)>) -> Seq<(Seq<char>, nat, nat)> {
    Seq::new(v.len(), |i: int| (v[i].0@, v[i].1.count as nat, v[i].1.size as nat))
}

/// An empty breakdown of a document of `total` bytes.
pub open spec fn empty_breakdown(total: nat) -> BreakdownSpec {
    (Seq::empty(), Seq::empty(), total)
}

impl SizeBreakdown {
    /// An empty breakdown of a document of `total` bytes.
    pub fn new(total: usize) -> (breakdown: Self)
        ensures
            breakdown@ == empty_breakdown(total as nat),
    {
        let breakdown = SizeBreakdown { by_path: Vec::new(), by_type: Vec::new(), total };
        proof {
            assert(breakdown@.0 =~= Seq::<(Seq<char>, Seq<char>, nat)>::empty());
            assert(breakdown@.1 =~= Seq::<(Seq<char>, nat, nat)>::empty());
        }
        breakdown
    }

    /// Adds the `size` bytes of a piece of data of encoding `type_id` at
    /// `path`.
    fn add(&mut self, path: &Path, type_id: &str, size: usize)
        requires
            add_ok(old(self)@, leaf(path@, type_id@, size as nat)[0]),
        ensures
            final(self)@ == add_spec(old(self)@, leaf(path@, type_id@, size as nat)[0]),
    {
        let ghost l = leaf(path@, type_id@, size as nat)[0];
        let ghost before = self@;
        let key = type_id.to_owned();
        let mut i: usize = 0;
        let mut found = false;
        while i < self.by_type.len()
            invariant_except_break
                !found,
                forall|j: int| 0 <= j < i ==> before.1[j].0 != l.2,
            invariant
                i <= self.by_type@.len(),
                self@ == before,
                key@ == l.2,
                add_ok(before, l),
            ensures
                found ==> i < self.by_type@.len() && before.1[i as int].0 == l.2 && forall|j: int|
                    0 <= j < i ==> before.1[j].0 != l.2,
                !found ==> forall|j: int| 0 <= j < self.by_type@.len() ==> before.1[j].0 != l.2,
            decreases self.by_type@.len() - i,
        {
            if self.by_type[i].0 == key {
                found = true;
                break;
            }
            i += 1;
        }
        if found {
            proof {
                lemma_type_index_first(before.1, l.2, i as int);
            }
            let count = self.by_type[i].1.count + 1;
            let total = self.by_type[i].1.size + size;
            let entry = (key, TypeAggregation { size: total, count });
            self.by_type.set(i, entry);
        } else {
            proof {
                lemma_type_index(before.1, l.2);
            }
            self.by_type.push((key, TypeAggregation { size, count: 1 }));
        }
        let types = Path::c(&path.types, type_id);
        self.by_path.push((path.names.clone(), PathAggregation { types, size }));
        proof {
            assert(self@.0 =~= add_spec(before, l).0);
            assert(self@.1 =~= add_spec(before, l).1);
        }
    }
}


/// Adding one piece of data through `add_all`.
proof fn lemma_add_one(b: BreakdownSpec, l: LeafSpec)
    ensures
        add_all(b, seq![l]) == add_spec(b, l),
        adds_ok(b, seq![l]) == add_ok(b, l),
{
    assert(seq![l].drop_last() =~= Seq::<LeafSpec>::empty());
    reveal_with_fuel(add_all, 2);
    reveal_with_fuel(adds_ok, 2);
}

/// Adds the leaves of an array branch, at `path`, to the breakdown.
fn visit_array(path: Path, branch: &DynArrayBranch, breakdown: &mut SizeBreakdown)
    requires
        adds_ok(old(breakdown)@, array_leaves(path@, branch.node())),
    ensures
        final(breakdown)@ == add_all(old(breakdown)@, array_leaves(path@, branch.node())),
    decreases branch, 1nat,
{
    let ghost b0 = breakdown@;
    match branch {
        DynArrayBranch::Object { fields } => {
            visit_fields(&path, fields, Ghost(branch.node()->Object_0), breakdown);
        },
        DynArrayBranch::Tuple { fields } => {
            visit_tuple(&path, fields, Ghost(branch.node()->Tuple_0), breakdown);
        },
        DynArrayBranch::Enum { discriminants, variants } => {
            let ghost first = array_leaves(
                step(path@, "discriminants"@, "Enum"@),
                (**discriminants).node(),
            );
            proof {
                lemma_add_all_concat(b0, first, named_array_leaves(path@, branch.node()->Enum_1, "Enum"@, 0));
            }
            visit_array(path.a("discriminants", "Enum"), discriminants, breakdown);
            visit_variants(&path, variants, Ghost(branch.node()->Enum_1), breakdown);
        },
        DynArrayBranch::ArrayFixed { .. } | DynArrayBranch::Array { .. } | DynArrayBranch::Mapping { .. }
        | DynArrayBranch::Nullable { .. } | DynArrayBranch::RLE { .. } | DynArrayBranch::Dictionary { .. }
        | DynArrayBranch::Boolean(ArrayBool::RLE(..)) => visit_children(path, branch, breakdown),
        _ => visit_leaf(path, branch, breakdown),
    }
}

/// Adds the leaves of an array branch with one, two or three children.
fn visit_children(path: Path, branch: &DynArrayBranch, breakdown: &mut SizeBreakdown)
    requires
        adds_ok(old(breakdown)@, array_leaves(path@, branch.node())),
        branch is ArrayFixed || branch is Array || branch is Mapping || branch is Nullable || branch is RLE
            || branch is Dictionary || branch matches DynArrayBranch::Boolean(ArrayBool::RLE(..)),
    ensures
        final(breakdown)@ == add_all(old(breakdown)@, array_leaves(path@, branch.node())),
    decreases branch, 0nat,
{
    let ghost b0 = breakdown@;
    match branch {
        DynArrayBranch::ArrayFixed { values, len } => {
            let mut name = String::new();
            name.append("[");
            let digits = decimal_text(*len);
            name.append(digits.as_str());
            name.append("]");
            proof {
                reveal_strlit("[");
                reveal_strlit("]");
                assert(name@ =~= seq!['['] + decimal(*len as nat) + seq![']']);
            }
            visit_array(path.a(name.as_str(), "Array Fixed"), values, breakdown);
        },
        DynArrayBranch::Array { len, values } => {
            let ghost first = array_leaves(step(path@, "len"@, "Array"@), (**len).node());
            let ghost second = array_leaves(step(path@, "values"@, "Array"@), (**values).node());
            proof {
                lemma_add_all_concat(b0, first, second);
            }
            visit_array(path.a("len", "Array"), len, breakdown);
            visit_array(path.a("values", "Array"), values, breakdown);
        },
        DynArrayBranch::Mapping { len, keys, values } => {
            let ghost first = array_leaves(step(path@, "len"@, "Map"@), (**len).node());
            let ghost second = array_leaves(step(path@, "keys"@, "Map"@), (**keys).node());
            let ghost third = array_leaves(step(path@, "values"@, "Map"@), (**values).node());
            proof {
                lemma_add_all_concat(b0, first + second, third);
                lemma_add_all_concat(b0, first, second);
            }
            visit_array(path.a("len", "Map"), len, breakdown);
            visit_array(path.a("keys", "Map"), keys, breakdown);
            visit_array(path.a("values", "Map"), values, breakdown);
        },
        DynArrayBranch::Nullable { opt, values } => {
            let ghost first = array_leaves(step(path@, "opt"@, "Nullable"@), (**opt).node());
            let ghost second = array_leaves(step(path@, "values"@, "Nullable"@), (**values).node());
            proof {
                lemma_add_all_concat(b0, first, second);
            }
            visit_array(path.a("opt", "Nullable"), opt, breakdown);
            visit_array(path.a("values", "Nullable"), values, breakdown);
        },
        DynArrayBranch::RLE { runs, values } => {
            let ghost first = array_leaves(step(path@, "runs"@, "RLE"@), (**runs).node());
            let ghost second = array_leaves(step(path@, "values"@, "RLE"@), (**values).node());
            proof {
                lemma_add_all_concat(b0, first, second);
            }
            visit_array(path.a("runs", "RLE"), runs, breakdown);
            visit_array(path.a("values", "RLE"), values, breakdown);
        },
        DynArrayBranch::Dictionary { indices, values } => {
            let ghost first = array_leaves(step(path@, "indices"@, "Dictionary"@), (**indices).node());
            let ghost second = array_leaves(step(path@, "values"@, "Dictionary"@), (**values).node());
            proof {
                lemma_add_all_concat(b0, first, second);
            }
            visit_array(path.a("indices", "Dictionary"), indices, breakdown);
            visit_array(path.a("values", "Dictionary"), values, breakdown);
        },
        DynArrayBranch::Boolean(ArrayBool::RLE(_first, runs)) => {
            visit_array(path.a("runs", "Bool RLE"), runs, breakdown);
        },
        _ => {},
    }
}

/// Adds the one leaf of an array branch that holds data bytes, if it is
/// one; the empty branches have none.
fn visit_leaf(path: Path, branch: &DynArrayBranch, breakdown: &mut SizeBreakdown)
    requires
        adds_ok(old(breakdown)@, array_leaves(path@, branch.node())),
        !(branch is ArrayFixed || branch is Array || branch is Mapping || branch is Nullable || branch is RLE
            || branch is Dictionary || branch matches DynArrayBranch::Boolean(ArrayBool::RLE(..))
            || branch is Object || branch is Tuple || branch is Enum),
    ensures
        final(breakdown)@ == add_all(old(breakdown)@, array_leaves(path@, branch.node())),
{
    let ghost b0 = breakdown@;
    let ghost all = array_leaves(path@, branch.node());
    match branch {
        DynArrayBranch::Boolean(ArrayBool::Packed(bytes)) => {
            proof {
                lemma_add_one(b0, all[0]);
            }
            breakdown.add(&path, "Packed Boolean", bytes.len());
        },
        DynArrayBranch::Float(float) => {
            proof {
                lemma_add_one(b0, all[0]);
            }
            match float {
                ArrayFloat::DoubleGorilla(bytes) => breakdown.add(&path, "Gorilla", bytes.len()),
                ArrayFloat::F32(bytes) => breakdown.add(&path, "Fixed F32", bytes.len()),
                ArrayFloat::F64(bytes) => breakdown.add(&path, "Fixed F64", bytes.len()),
                ArrayFloat::Zfp32(bytes) => breakdown.add(&path, "Zfp 64", bytes.len()),
                ArrayFloat::Zfp64(bytes) => breakdown.add(&path, "Zfp 32", bytes.len()),
            }
        },
        DynArrayBranch::Integer(ArrayInteger { bytes, encoding }) => {
            proof {
                lemma_add_one(b0, all[0]);
            }
            match encoding {
                ArrayIntegerEncoding::PrefixVarInt => breakdown.add(&path, "Prefix Varint", bytes.len()),
                ArrayIntegerEncoding::Simple16 => breakdown.add(&path, "Simple16", bytes.len()),
                ArrayIntegerEncoding::U8 => breakdown.add(&path, "U8 Fixed", bytes.len()),
            }
        },
        DynArrayBranch::String(bytes) => {
            proof {
                lemma_add_one(b0, all[0]);
            }
            breakdown.add(&path, "UTF-8", bytes.len());
        },
        _ => {
            proof {
                assert(all =~= Seq::<LeafSpec>::empty());
            }
        },
    }
}

/// Adds the leaves of the fields of an object branch, whose content is
/// `nodes`.
fn visit_fields<'a>(
    path: &Path,
    fields: &Vec<(Ident<'a>, DynArrayBranch<'a>)>,
    Ghost(nodes): Ghost<Seq<(Seq<u8>, ArrayNode)>>,
    breakdown: &mut SizeBreakdown,
)
    requires
        nodes.len() == fields@.len(),
        forall|i: int|
            0 <= i < nodes.len() ==> #[trigger] nodes[i] == (
                fields@[i].0.spec_bytes(),
                fields@[i].1.node(),
            ),
        adds_ok(old(breakdown)@, named_array_leaves(path@, nodes, "Object"@, 0)),
    ensures
        final(breakdown)@ == add_all(old(breakdown)@, named_array_leaves(path@, nodes, "Object"@, 0)),
    decreases fields, 0nat,
{

    let ghost target = add_all(breakdown@, named_array_leaves(path@, nodes, "Object"@, 0));
    let mut k: usize = 0;
    while k < fields.len()
        invariant
            k <= fields@.len(),
            nodes.len() == fields@.len(),
            forall|i: int|
                0 <= i < nodes.len() ==> #[trigger] nodes[i] == (
                    fields@[i].0.spec_bytes(),
                    fields@[i].1.node(),
                ),
            adds_ok(breakdown@, named_array_leaves(path@, nodes, "Object"@, k as int)),
            add_all(breakdown@, named_array_leaves(path@, nodes, "Object"@, k as int)) == target,
        decreases fields@.len() - k,
    {
        let (name, child) = &fields[k];
        proof {
            assert(nodes[k as int] == (name.spec_bytes(), child.node()));
            vstd::utf8::encode_utf8_decode_utf8(name@);
            assert(named_array_leaves(path@, nodes, "Object"@, k as int) == array_leaves(
                step(path@, name@, "Object"@),
                child.node(),
            ) + named_array_leaves(path@, nodes, "Object"@, k + 1));
            lemma_add_all_concat(
                breakdown@,
                array_leaves(step(path@, name@, "Object"@), child.node()),
                named_array_leaves(path@, nodes, "Object"@, k + 1),
            );
            assert(decreases_to!(fields => fields@[k as int].1));
        }
        visit_array(path.a(name, "Object"), child, breakdown);
        k += 1;
    }
}

/// Adds the leaves of the children of a tuple branch, whose content is
/// `nodes`.
fn visit_tuple<'a>(
    path: &Path,
    kids: &Vec<DynArrayBranch<'a>>,
    Ghost(nodes): Ghost<Seq<ArrayNode>>,
    breakdown: &mut SizeBreakdown,
)
    requires
        nodes.len() == kids@.len(),
        forall|i: int| 0 <= i < nodes.len() ==> #[trigger] nodes[i] == kids@[i].node(),
        adds_ok(old(breakdown)@, tuple_array_leaves(path@, nodes, 0)),
    ensures
        final(breakdown)@ == add_all(old(breakdown)@, tuple_array_leaves(path@, nodes, 0)),
    decreases kids, 0nat,
{
    let ghost target = add_all(breakdown@, tuple_array_leaves(path@, nodes, 0));
    let mut k: usize = 0;
    while k < kids.len()
        invariant
            k <= kids@.len(),
            nodes.len() == kids@.len(),
            forall|i: int| 0 <= i < nodes.len() ==> #[trigger] nodes[i] == kids@[i].node(),
            adds_ok(breakdown@, tuple_array_leaves(path@, nodes, k as int)),
            add_all(breakdown@, tuple_array_leaves(path@, nodes, k as int)) == target,
        decreases kids@.len() - k,
    {
        proof {
            assert(nodes[k as int] == kids@[k as int].node());
            lemma_add_all_concat(
                breakdown@,
                array_leaves(step(path@, decimal(k as nat), "Tuple"@), kids@[k as int].node()),
                tuple_array_leaves(path@, nodes, k + 1),
            );
            assert(decreases_to!(kids => kids@[k as int]));
        }
        let index = decimal_text(k);
        visit_array(path.a(index.as_str(), "Tuple"), &kids[k], breakdown);
        k += 1;
    }
}

/// Adds the leaves of the variants of an enum branch, whose content is
/// `nodes`.
fn visit_variants<'a>(
    path: &Path,
    variants: &Vec<ArrayEnumVariant<'a>>,
    Ghost(nodes): Ghost<Seq<(Seq<u8>, ArrayNode)>>,
    breakdown: &mut SizeBreakdown,
)
    requires
        nodes.len() == variants@.len(),
        forall|i: int|
            0 <= i < nodes.len() ==> #[trigger] nodes[i] == (
                variants@[i].ident.spec_bytes(),
                variants@[i].data.node(),
            ),
        adds_ok(old(breakdown)@, named_array_leaves(path@, nodes, "Enum"@, 0)),
    ensures
        final(breakdown)@ == add_all(old(breakdown)@, named_array_leaves(path@, nodes, "Enum"@, 0)),
    decreases variants, 0nat,
{

    let ghost target = add_all(breakdown@, named_array_leaves(path@, nodes, "Enum"@, 0));
    let mut k: usize = 0;
    while k < variants.len()
        invariant
            k <= variants@.len(),
            nodes.len() == variants@.len(),
            forall|i: int|
                0 <= i < nodes.len() ==> #[trigger] nodes[i] == (
                    variants@[i].ident.spec_bytes(),
                    variants@[i].data.node(),
                ),
            adds_ok(breakdown@, named_array_leaves(path@, nodes, "Enum"@, k as int)),
            add_all(breakdown@, named_array_leaves(path@, nodes, "Enum"@, k as int)) == target,
        decreases variants@.len() - k,
    {
        let variant = &variants[k];
        proof {
            assert(nodes[k as int] == (variant.ident.spec_bytes(), variant.data.node()));
            vstd::utf8::encode_utf8_decode_utf8(variant.ident@);
            assert(named_array_leaves(path@, nodes, "Enum"@, k as int) == array_leaves(
                step(path@, variant.ident@, "Enum"@),
                variant.data.node(),
            ) + named_array_leaves(path@, nodes, "Enum"@, k + 1));
            lemma_add_all_concat(
                breakdown@,
                array_leaves(step(path@, variant.ident@, "Enum"@), variant.data.node()),
                named_array_leaves(path@, nodes, "Enum"@, k + 1),
            );
            assert(decreases_to!(variants => variants@[k as int].data));
        }
        visit_array(path.a(variant.ident, "Enum"), &variant.data, breakdown);
        k += 1;
    }
}

/// Adds the leaves of a root branch, at `path`, to the breakdown.
fn visit(path: Path, branch: &DynRootBranch, breakdown: &mut SizeBreakdown)
    requires
        adds_ok(old(breakdown)@, root_leaves(path@, branch.node())),
    ensures
        final(breakdown)@ == add_all(old(breakdown)@, root_leaves(path@, branch.node())),
    decreases branch, 1nat,
{
    let ghost b0 = breakdown@;
    let ghost all = root_leaves(path@, branch.node());
    match branch {
        DynRootBranch::Object { fields } => {
            visit_root_fields(&path, fields, Ghost(branch.node()->Object_0), breakdown);
        },
        DynRootBranch::Enum { discriminant, value } => {
            proof {
                vstd::utf8::encode_utf8_decode_utf8(discriminant@);
            }
            visit(path.a(discriminant, "Enum"), value, breakdown);
        },
        DynRootBranch::Mapping { len: _, keys, values } => {
            let ghost first = array_leaves(step(path@, "keys"@, "Map"@), keys.node());
            let ghost second = array_leaves(step(path@, "values"@, "Values"@), values.node());
            proof {
                lemma_add_all_concat(b0, first, second);
            }
            visit_array(path.a("keys", "Map"), keys, breakdown);
            visit_array(path.a("values", "Values"), values, breakdown);
        },
        DynRootBranch::Tuple { fields } => {
            visit_root_tuple(&path, fields, Ghost(branch.node()->Tuple_0), breakdown);
        },
        DynRootBranch::Map1 { key, value } => {
            let ghost first = root_leaves(step(path@, "key"@, "Map1"@), (**key).node());
            let ghost second = root_leaves(step(path@, "value"@, "Map1"@), (**value).node());
            proof {
                lemma_add_all_concat(b0, first, second);
            }
            visit(path.a("key", "Map1"), key, breakdown);
            visit(path.a("value", "Map1"), value, breakdown);
        },
        DynRootBranch::Array { len, values } => {
            let mut name = String::new();
            name.append("[");
            let digits = decimal_text(*len);
            name.append(digits.as_str());
            name.append("]");
            proof {
                reveal_strlit("[");
                reveal_strlit("]");
                assert(name@ =~= seq!['['] + decimal(*len as nat) + seq![']']);
            }
            visit_array(path.a(name.as_str(), "Array"), values, breakdown);
        },
        DynRootBranch::Array1(item) => {
            visit(path.a("1", "Array1"), item, breakdown);
        },
        _ => {
            proof {
                assert(all =~= Seq::<LeafSpec>::empty());
            }
        },
    }
}

/// Adds the leaves of the fields of a root object, whose content is
/// `nodes`.
fn visit_root_fields<'a>(
    path: &Path,
    fields: &Vec<(Ident<'a>, DynRootBranch<'a>)>,
    Ghost(nodes): Ghost<Seq<(Seq<u8>, RootNode)>>,
    breakdown: &mut SizeBreakdown,
)
    requires
        nodes.len() == fields@.len(),
        forall|i: int|
            0 <= i < nodes.len() ==> #[trigger] nodes[i] == (
                fields@[i].0.spec_bytes(),
                fields@[i].1.node(),
            ),
        adds_ok(old(breakdown)@, named_root_leaves(path@, nodes, 0)),
    ensures
        final(breakdown)@ == add_all(old(breakdown)@, named_root_leaves(path@, nodes, 0)),
    decreases fields, 0nat,
{
    let ghost target = add_all(breakdown@, named_root_leaves(path@, nodes, 0));
    let mut k: usize = 0;
    while k < fields.len()
        invariant
            k <= fields@.len(),
            nodes.len() == fields@.len(),
            forall|i: int|
                0 <= i < nodes.len() ==> #[trigger] nodes[i] == (
                    fields@[i].0.spec_bytes(),
                    fields@[i].1.node(),
                ),
            adds_ok(breakdown@, named_root_leaves(path@, nodes, k as int)),
            add_all(breakdown@, named_root_leaves(path@, nodes, k as int)) == target,
        decreases fields@.len() - k,
    {
        let (name, child) = &fields[k];
        proof {
            assert(nodes[k as int] == (name.spec_bytes(), child.node()));
            vstd::utf8::encode_utf8_decode_utf8(name@);
            assert(named_root_leaves(path@, nodes, k as int) == root_leaves(
                step(path@, name@, "Object"@),
                child.node(),
            ) + named_root_leaves(path@, nodes, k + 1));
            lemma_add_all_concat(
                breakdown@,
                root_leaves(step(path@, name@, "Object"@), child.node()),
                named_root_leaves(path@, nodes, k + 1),
            );
            assert(decreases_to!(fields => fields@[k as int].1));
        }
        visit(path.a(name, "Object"), child, breakdown);
        k += 1;
    }
}

/// Adds the leaves of the children of a root tuple, whose content is
/// `nodes`.
fn visit_root_tuple<'a>(
    path: &Path,
    kids: &Vec<DynRootBranch<'a>>,
    Ghost(nodes): Ghost<Seq<RootNode>>,
    breakdown: &mut SizeBreakdown,
)
    requires
        nodes.len() == kids@.len(),
        forall|i: int| 0 <= i < nodes.len() ==> #[trigger] nodes[i] == kids@[i].node(),
        adds_ok(old(breakdown)@, tuple_root_leaves(path@, nodes, 0)),
    ensures
        final(breakdown)@ == add_all(old(breakdown)@, tuple_root_leaves(path@, nodes, 0)),
    decreases kids, 0nat,
{
    let ghost target = add_all(breakdown@, tuple_root_leaves(path@, nodes, 0));
    let mut k: usize = 0;
    while k < kids.len()
        invariant
            k <= kids@.len(),
            nodes.len() == kids@.len(),
            forall|i: int| 0 <= i < nodes.len() ==> #[trigger] nodes[i] == kids@[i].node(),
            adds_ok(breakdown@, tuple_root_leaves(path@, nodes, k as int)),
            add_all(breakdown@, tuple_root_leaves(path@, nodes, k as int)) == target,
        decreases kids@.len() - k,
    {
        proof {
            assert(nodes[k as int] == kids@[k as int].node());
            lemma_add_all_concat(
                breakdown@,
                root_leaves(step(path@, decimal(k as nat), "Tuple"@), kids@[k as int].node()),
                tuple_root_leaves(path@, nodes, k + 1),
            );
            assert(decreases_to!(kids => kids@[k as int]));
        }
        let index = decimal_text(k);
        visit(path.a(index.as_str(), "Tuple"), &kids[k], breakdown);
        k += 1;
    }
}

// ---------------------------------------------------------------------------
// Printing the breakdown
// ---------------------------------------------------------------------------

/// `x` placed among `sorted` (largest first) after every entry at least as
/// large: one step of a stable sort, largest first.
pub open spec fn insert_desc<A>(sorted: Seq<A>, x: A, size: spec_fn(A) -> nat) -> Seq<A>
    decreases sorted.len(),
{
    if sorted.len() == 0 {
        seq![x]
    } else if size(sorted.last()) >= size(x) {
        sorted.push(x)
    } else {
        insert_desc(sorted.drop_last(), x, size).push(sorted.last())
    }
}

/// The entries sorted largest first, entries of the same size kept in
/// their order.
pub open spec fn sort_desc<A>(s: Seq<A>, size: spec_fn(A) -> nat) -> Seq<A>
    decreases s.len(),
{
    if s.len() == 0 {
        Seq::empty()
    } else {
        insert_desc(sort_desc(s.drop_last(), size), s.last(), size)
    }
}

/// The size of an entry by path.
pub open spec fn path_size(e: (Seq<char>, Seq<char>, nat)) -> nat {
    e.2
}

/// The size of an entry by encoding.
pub open spec fn type_size(e: (Seq<char>, nat, nat)) -> nat {
    e.2
}

/// Inserting after position `j`, the first from the back whose entry is at
/// least as large.
proof fn lemma_insert_desc_at<A>(s: Seq<A>, x: A, size: spec_fn(A) -> nat, j: int)
    requires
        0 <= j <= s.len(),
        j == 0 || size(s[j - 1]) >= size(x),
        forall|k: int| j <= k < s.len() ==> size(#[trigger] s[k]) < size(x),
    ensures
        insert_desc(s, x, size) == s.subrange(0, j).push(x) + s.subrange(j, s.len() as int),
    decreases s.len(),
{
    if s.len() == 0 {
        assert(s.subrange(0, j).push(x) + s.subrange(j, s.len() as int) =~= seq![x]);
    } else if j == s.len() {
        assert(s.subrange(0, j) =~= s);
        assert(s.subrange(0, j).push(x) + s.subrange(j, s.len() as int) =~= s.push(x));
    } else {
        assert(size(s.last()) < size(x));
        let t = s.drop_last();
        lemma_insert_desc_at(t, x, size, j);
        assert(s.subrange(0, j).push(x) + s.subrange(j, s.len() as int) =~= (t.subrange(0, j).push(x)
            + t.subrange(j, t.len() as int)).push(s.last()));
    }
}

/// The lines for the entries by path.
pub open spec fn path_lines(entries: Seq<(Seq<char>, Seq<char>, nat)>) -> Seq<char>
    decreases entries.len(),
{
    if entries.len() == 0 {
        Seq::empty()
    } else {
        let e = entries.last();
        path_lines(entries.drop_last()) + "\t"@ + decimal(e.2) + "\n\t   "@ + e.0 + "\n\t   "@ + e.1
            + "\n"@
    }
}

/// The lines for the entries by encoding.
pub open spec fn type_lines(entries: Seq<(Seq<char>, nat, nat)>) -> Seq<char>
    decreases entries.len(),
{
    if entries.len() == 0 {
        Seq::empty()
    } else {
        let e = entries.last();
        type_lines(entries.drop_last()) + "\t "@ + decimal(e.1) + "x "@ + decimal(e.2) + " @ "@ + e.0
            + "\n"@
    }
}

/// The bytes accounted for by the entries by encoding.
pub open spec fn accounted(entries: Seq<(Seq<char>, nat, nat)>) -> nat
    decreases entries.len(),
{
    if entries.len() == 0 {
        0
    } else {
        accounted(entries.drop_last()) + entries.last().2
    }
}

/// The printed breakdown: the pieces of data largest first, with their
/// paths and kinds; the encodings, largest first; the bytes accounted for
/// by no piece of data; and the size of the document.
pub open spec fn render(b: BreakdownSpec) -> Seq<char> {
    let by_path = sort_desc(b.0, |e: (Seq<char>, Seq<char>, nat)| path_size(e));
    let by_type = sort_desc(b.1, |e: (Seq<char>, nat, nat)| type_size(e));
    "Largest by path:\n"@ + path_lines(by_path) + "\n"@ + "Largest by type:\n"@ + type_lines(by_type)
        + "\n"@ + "Other: "@ + decimal((b.2 - accounted(by_type)) as nat) + "\n"@ + "Total: "@ + decimal(
        b.2,
    ) + "\n"@
}

/// The printed breakdown ends with two lines: the bytes of the document
/// that no piece of data accounts for, which is its size less the sizes of
/// all the encodings gathered, and then its size. So the number after
/// `Other: ` and the sizes by encoding add up to the number after
/// `Total: `.
pub proof fn lemma_render_other_and_total(b: BreakdownSpec)
    requires
        accounted(b.1) <= b.2,
    ensures
        exists|head: Seq<char>|
            render(b) == head + "Other: "@ + decimal((b.2 - accounted(b.1)) as nat) + "\n"@ + "Total: "@
                + decimal(b.2) + "\n"@,
{
    lemma_accounted_sort(b.1);
    let by_path = sort_desc(b.0, |e: (Seq<char>, Seq<char>, nat)| path_size(e));
    let by_type = sort_desc(b.1, |e: (Seq<char>, nat, nat)| type_size(e));
    let head = "Largest by path:\n"@ + path_lines(by_path) + "\n"@ + "Largest by type:\n"@ + type_lines(by_type)
        + "\n"@;
    assert(render(b) =~= head + "Other: "@ + decimal((b.2 - accounted(b.1)) as nat) + "\n"@ + "Total: "@
        + decimal(b.2) + "\n"@);
}

/// A breakdown can be printed: the entries by encoding account for no
/// more bytes than the document has.
pub open spec fn renders(b: BreakdownSpec) -> bool {
    accounted(sort_desc(b.1, |e: (Seq<char>, nat, nat)| type_size(e))) <= b.2 <= usize::MAX
}

/// The entries by path, sorted largest first.
fn sorted_paths(entries: &Vec<(String, PathAggregation)>) -> (sorted: Vec<(String, PathAggregation)>)
    ensures
        paths_view(sorted@) == sort_desc(paths_view(entries@), |e: (Seq<char>, Seq<char>, nat)| path_size(e)),
{
    let ghost all = paths_view(entries@);
    let ghost size = |e: (Seq<char>, Seq<char>, nat)| path_size(e);
    let mut sorted: Vec<(String, PathAggregation)> = Vec::new();
    let mut i: usize = 0;
    proof {
        assert(all.subrange(0, 0) =~= Seq::<(Seq<char>, Seq<char>, nat)>::empty());
        assert(paths_view(sorted@) =~= Seq::<(Seq<char>, Seq<char>, nat)>::empty());
    }
    while i < entries.len()
        invariant
            i <= entries@.len(),
            all == paths_view(entries@),
            all.len() == entries@.len(),
            size == (|e: (Seq<char>, Seq<char>, nat)| path_size(e)),
            paths_view(sorted@) == sort_desc(all.subrange(0, i as int), size),
        decreases entries@.len() - i,
    {
        let entry = (entries[i].0.clone(), PathAggregation { types: entries[i].1.types.clone(), size: entries[i].1.size });
        let ghost x = all[i as int];
        let ghost before = paths_view(sorted@);
        assert(x == (entry.0@, entry.1.types@, entry.1.size as nat));
        let mut j = sorted.len();
        while j > 0 && sorted[j - 1].1.size < entry.1.size
            invariant
                j <= sorted@.len(),
                before == paths_view(sorted@),
                before.len() == sorted@.len(),
                size == (|e: (Seq<char>, Seq<char>, nat)| path_size(e)),
                x == (entry.0@, entry.1.types@, entry.1.size as nat),
                forall|k: int| j <= k < sorted@.len() ==> size(#[trigger] before[k]) < size(x),
            decreases j,
        {
            j -= 1;
        }
        proof {
            lemma_insert_desc_at(before, x, size, j as int);
            assert(all.subrange(0, i + 1).drop_last() =~= all.subrange(0, i as int));
            assert(all.subrange(0, i + 1).last() == x);
        }
        sorted.insert(j, entry);
        proof {
            assert(paths_view(sorted@) =~= before.subrange(0, j as int).push(x) + before.subrange(
                j as int,
                before.len() as int,
            ));
        }
        i += 1;
    }
    proof {
        assert(all.subrange(0, all.len() as int) =~= all);
    }
    sorted
}

/// The entries by encoding, sorted largest first.
fn sorted_types(entries: &Vec<(String, TypeAggregation)>) -> (sorted: Vec<(String, TypeAggregation)>)
    ensures
        types_view(sorted@) == sort_desc(types_view(entries@), |e: (Seq<char>, nat, nat)| type_size(e)),
{
    let ghost all = types_view(entries@);
    let ghost size = |e: (Seq<char>, nat, nat)| type_size(e);
    let mut sorted: Vec<(String, TypeAggregation)> = Vec::new();
    let mut i: usize = 0;
    proof {
        assert(all.subrange(0, 0) =~= Seq::<(Seq<char>, nat, nat)>::empty());
        assert(types_view(sorted@) =~= Seq::<(Seq<char>, nat, nat)>::empty());
    }
    while i < entries.len()
        invariant
            i <= entries@.len(),
            all == types_view(entries@),
            all.len() == entries@.len(),
            size == (|e: (Seq<char>, nat, nat)| type_size(e)),
            types_view(sorted@) == sort_desc(all.subrange(0, i as int), size),
        decreases entries@.len() - i,
    {
        let entry = (entries[i].0.clone(), TypeAggregation { size: entries[i].1.size, count: entries[i].1.count });
        let ghost x = all[i as int];
        let ghost before = types_view(sorted@);
        assert(x == (entry.0@, entry.1.count as nat, entry.1.size as nat));
        let mut j = sorted.len();
        while j > 0 && sorted[j - 1].1.size < entry.1.size
            invariant
                j <= sorted@.len(),
                before == types_view(sorted@),
                before.len() == sorted@.len(),
                size == (|e: (Seq<char>, nat, nat)| type_size(e)),
                x == (entry.0@, entry.1.count as nat, entry.1.size as nat),
                forall|k: int| j <= k < sorted@.len() ==> size(#[trigger] before[k]) < size(x),
            decreases j,
        {
            j -= 1;
        }
        proof {
            lemma_insert_desc_at(before, x, size, j as int);
            assert(all.subrange(0, i + 1).drop_last() =~= all.subrange(0, i as int));
            assert(all.subrange(0, i + 1).last() == x);
        }
        sorted.insert(j, entry);
        proof {
            assert(types_view(sorted@) =~= before.subrange(0, j as int).push(x) + before.subrange(
                j as int,
                before.len() as int,
            ));
        }
        i += 1;
    }
    proof {
        assert(all.subrange(0, all.len() as int) =~= all);
    }
    sorted
}

/// The bytes accounted for by the first `i` entries are no more than by
/// all of them.
proof fn lemma_accounted_prefix(entries: Seq<(Seq<char>, nat, nat)>, i: int)
    requires
        0 <= i <= entries.len(),
    ensures
        accounted(entries.subrange(0, i)) <= accounted(entries),
    decreases entries.len() - i,
{
    if i < entries.len() {
        lemma_accounted_prefix(entries, i + 1);
        assert(entries.subrange(0, i + 1).drop_last() =~= entries.subrange(0, i));
    } else {
        assert(entries.subrange(0, i) =~= entries);
    }
}

impl SizeBreakdown {
    /// The printed breakdown: the pieces of data largest first, with their
    /// paths and kinds; the encodings, largest first; the bytes accounted
    /// for by no piece of data; and the size of the document.
    pub fn render(&self) -> (text: String)
        requires
            renders(self@),
        ensures
            text@ == render(self@),
    {
        let by_path = sorted_paths(&self.by_path);
        let by_type = sorted_types(&self.by_type);
        let ghost paths = paths_view(by_path@);
        let ghost types = types_view(by_type@);
        let mut text = String::new();
        text.append("Largest by path:\n");
        let ghost head = text@;
        let mut i: usize = 0;
        proof {
            assert(paths.subrange(0, 0) =~= Seq::<(Seq<char>, Seq<char>, nat)>::empty());
            assert(text@ =~= head + path_lines(paths.subrange(0, 0)));
        }
        while i < by_path.len()
            invariant
                i <= by_path@.len(),
                paths == paths_view(by_path@),
                text@ == head + path_lines(paths.subrange(0, i as int)),
            decreases by_path@.len() - i,
        {
            let (names, agg) = &by_path[i];
            text.append("\t");
            let size = decimal_text(agg.size);
            text.append(size.as_str());
            text.append("\n\t   ");
            text.append(names.as_str());
            text.append("\n\t   ");
            text.append(agg.types.as_str());
            text.append("\n");
            proof {
                assert(paths.subrange(0, i + 1).drop_last() =~= paths.subrange(0, i as int));
                assert(paths.subrange(0, i + 1).last() == paths[i as int]);
                assert(text@ =~= head + path_lines(paths.subrange(0, i + 1)));
            }
            i += 1;
        }
        proof {
            assert(paths.subrange(0, paths.len() as int) =~= paths);
        }
        text.append("\n");
        text.append("Largest by type:\n");
        let ghost middle = text@;
        let mut k: usize = 0;
        let mut accounted_bytes: usize = 0;
        proof {
            assert(types.subrange(0, 0) =~= Seq::<(Seq<char>, nat, nat)>::empty());
            assert(text@ =~= middle + type_lines(types.subrange(0, 0)));
        }
        while k < by_type.len()
            invariant
                k <= by_type@.len(),
                types == types_view(by_type@),
                types == sort_desc(self@.1, |e: (Seq<char>, nat, nat)| type_size(e)),
                renders(self@),
                text@ == middle + type_lines(types.subrange(0, k as int)),
                accounted_bytes == accounted(types.subrange(0, k as int)),
            decreases by_type@.len() - k,
        {
            let (name, agg) = &by_type[k];
            text.append("\t ");
            let count = decimal_text(agg.count);
            text.append(count.as_str());
            text.append("x ");
            let size = decimal_text(agg.size);
            text.append(size.as_str());
            text.append(" @ ");
            text.append(name.as_str());
            text.append("\n");
            proof {
                assert(types.subrange(0, k + 1).drop_last() =~= types.subrange(0, k as int));
                assert(types.subrange(0, k + 1).last() == types[k as int]);
                assert(text@ =~= middle + type_lines(types.subrange(0, k + 1)));
                lemma_accounted_prefix(types, k + 1);
            }
            accounted_bytes = accounted_bytes + agg.size;
            k += 1;
        }
        proof {
            assert(types.subrange(0, types.len() as int) =~= types);
        }
        text.append("\n");
        text.append("Other: ");
        let other = decimal_text(self.total - accounted_bytes);
        text.append(other.as_str());
        text.append("\n");
        text.append("Total: ");
        let total = decimal_text(self.total);
        text.append(total.as_str());
        text.append("\n");
        proof {
            assert(text@ =~= render(self@));
        }
        text
    }
}

/// The breakdown of a document whose root branch is `node`.
pub open spec fn breakdown_of(data: Seq<u8>, node: RootNode) -> BreakdownSpec {
    add_all(empty_breakdown(data.len()), root_leaves((Seq::empty(), Seq::empty()), node))
}

/// No two pieces of data share a path.
pub open spec fn distinct_paths(leaves: Seq<LeafSpec>) -> bool {
    forall|i: int, j: int| 0 <= i < j < leaves.len() ==> #[trigger] leaves[i].0 != #[trigger] leaves[j].0
}

/// A breakdown of the document can be gathered: no two pieces of data in
/// it share a path.
pub open spec fn can_break_down(data: Seq<u8>) -> bool {
    match read_root_spec(data) {
        Some(node) => distinct_paths(root_leaves((Seq::empty(), Seq::empty()), node)),
        None => true,
    }
}

/// How the bytes of a valid document are spent, printed for reading: by
/// path and by encoding, largest first. Fails where the document does not
/// decode.
pub fn size_breakdown(data: &[u8]) -> (result: DecodeResult<String>)
    requires
        can_break_down(data@),
    ensures
        match read_root_spec(data@) {
            Some(node) => result matches Ok(text) && text@ == render(breakdown_of(data@, node)),
            None => result matches Err(e) && e == DecodeError::InvalidFormat,
        },
{
    let total = data.len();
    let root = read_root(data)?;
    let mut breakdown = SizeBreakdown::new(total);
    proof {
        let node = root.node();
        let leaves = root_leaves((Seq::empty(), Seq::empty()), node);
        lemma_document_extent(data@);
        lemma_root_leaves_weight((Seq::empty(), Seq::empty()), node);
        lemma_adds_ok(total as nat, leaves);
        lemma_add_all_facts(total as nat, leaves);
        lemma_accounted_sort(add_all(empty_breakdown(total as nat), leaves).1);
    }
    visit(Path::new(), &root, &mut breakdown);
    Ok(breakdown.render())
}

// ---------------------------------------------------------------------------
// The breakdown fits the document
// ---------------------------------------------------------------------------

/// The bytes of the pieces of data.
pub open spec fn leaf_sizes(leaves: Seq<LeafSpec>) -> nat
    decreases leaves.len(),
{
    if leaves.len() == 0 {
        0
    } else {
        leaf_sizes(leaves.drop_last()) + leaves.last().3
    }
}

/// The sizes of two runs of pieces add up.
proof fn lemma_leaf_sizes_concat(a: Seq<LeafSpec>, b: Seq<LeafSpec>)
    ensures
        leaf_sizes(a + b) == leaf_sizes(a) + leaf_sizes(b),
    decreases b.len(),
{
    if b.len() == 0 {
        assert(a + b =~= a);
    } else {
        assert((a + b).drop_last() =~= a + b.drop_last());
        lemma_leaf_sizes_concat(a, b.drop_last());
    }
}

/// The pieces of data of an array branch, with a byte each for their type
/// ids, are its weight.
proof fn lemma_array_leaves_weight(p: PathSpec, node: ArrayNode)
    ensures
        leaf_sizes(array_leaves(p, node)) + array_leaves(p, node).len() == array_weight(node),
    decreases node, 0nat,
{
    reveal_with_fuel(leaf_sizes, 2);
    match node {
        ArrayNode::Object(fields) => lemma_named_leaves_weight(p, fields, "Object"@, 0),
        ArrayNode::Tuple(kids) => lemma_tuple_leaves_weight(p, kids, 0),
        ArrayNode::Array(len, values) => {
            let a = array_leaves(step(p, "len"@, "Array"@), *len);
            let b = array_leaves(step(p, "values"@, "Array"@), *values);
            lemma_array_leaves_weight(step(p, "len"@, "Array"@), *len);
            lemma_array_leaves_weight(step(p, "values"@, "Array"@), *values);
            lemma_leaf_sizes_concat(a, b);
        },
        ArrayNode::ArrayFixed(len, values) => {
            lemma_array_leaves_weight(
                step(p, seq!['['] + decimal(len as nat) + seq![']'], "Array Fixed"@),
                *values,
            );
        },
        ArrayNode::Mapping(len, keys, values) => {
            let a = array_leaves(step(p, "len"@, "Map"@), *len);
            let b = array_leaves(step(p, "keys"@, "Map"@), *keys);
            let c = array_leaves(step(p, "values"@, "Map"@), *values);
            lemma_array_leaves_weight(step(p, "len"@, "Map"@), *len);
            lemma_array_leaves_weight(step(p, "keys"@, "Map"@), *keys);
            lemma_array_leaves_weight(step(p, "values"@, "Map"@), *values);
            lemma_leaf_sizes_concat(a, b);
            lemma_leaf_sizes_concat(a + b, c);
        },
        ArrayNode::Nullable(opt, values) => {
            let a = array_leaves(step(p, "opt"@, "Nullable"@), *opt);
            let b = array_leaves(step(p, "values"@, "Nullable"@), *values);
            lemma_array_leaves_weight(step(p, "opt"@, "Nullable"@), *opt);
            lemma_array_leaves_weight(step(p, "values"@, "Nullable"@), *values);
            lemma_leaf_sizes_concat(a, b);
        },
        ArrayNode::RLEBool(_, runs) => {
            lemma_array_leaves_weight(step(p, "runs"@, "Bool RLE"@), *runs);
        },
        ArrayNode::Enum(discriminants, variants) => {
            let a = array_leaves(step(p, "discriminants"@, "Enum"@), *discriminants);
            let b = named_array_leaves(p, variants, "Enum"@, 0);
            lemma_array_leaves_weight(step(p, "discriminants"@, "Enum"@), *discriminants);
            lemma_named_leaves_weight(p, variants, "Enum"@, 0);
            lemma_leaf_sizes_concat(a, b);
        },
        ArrayNode::RLE(runs, values) => {
            let a = array_leaves(step(p, "runs"@, "RLE"@), *runs);
            let b = array_leaves(step(p, "values"@, "RLE"@), *values);
            lemma_array_leaves_weight(step(p, "runs"@, "RLE"@), *runs);
            lemma_array_leaves_weight(step(p, "values"@, "RLE"@), *values);
            lemma_leaf_sizes_concat(a, b);
        },
        ArrayNode::Dictionary(indices, values) => {
            let a = array_leaves(step(p, "indices"@, "Dictionary"@), *indices);
            let b = array_leaves(step(p, "values"@, "Dictionary"@), *values);
            lemma_array_leaves_weight(step(p, "indices"@, "Dictionary"@), *indices);
            lemma_array_leaves_weight(step(p, "values"@, "Dictionary"@), *values);
            lemma_leaf_sizes_concat(a, b);
        },
        _ => {
            assert(seq![(p.0, p.1, Seq::<char>::empty(), 0nat)].drop_last() =~= Seq::<LeafSpec>::empty());
        },
    }
}

/// The weight of named array children, through their leaves.
proof fn lemma_named_leaves_weight(p: PathSpec, fields: Seq<(Seq<u8>, ArrayNode)>, kind: Seq<char>, i: int)
    ensures
        leaf_sizes(named_array_leaves(p, fields, kind, i)) + named_array_leaves(p, fields, kind, i).len()
            == named_weight(fields, i),
    decreases fields, fields.len() - i,
{
    if 0 <= i < fields.len() {
        let a = array_leaves(step(p, decode_utf8(fields[i].0), kind), fields[i].1);
        lemma_array_leaves_weight(step(p, decode_utf8(fields[i].0), kind), fields[i].1);
        lemma_named_leaves_weight(p, fields, kind, i + 1);
        lemma_leaf_sizes_concat(a, named_array_leaves(p, fields, kind, i + 1));
    }
}

/// The weight of array children, through their leaves.
proof fn lemma_tuple_leaves_weight(p: PathSpec, kids: Seq<ArrayNode>, i: int)
    ensures
        leaf_sizes(tuple_array_leaves(p, kids, i)) + tuple_array_leaves(p, kids, i).len() == kids_weight(
            kids,
            i,
        ),
    decreases kids, kids.len() - i,
{
    if 0 <= i < kids.len() {
        let a = array_leaves(step(p, decimal(i as nat), "Tuple"@), kids[i]);
        lemma_array_leaves_weight(step(p, decimal(i as nat), "Tuple"@), kids[i]);
        lemma_tuple_leaves_weight(p, kids, i + 1);
        lemma_leaf_sizes_concat(a, tuple_array_leaves(p, kids, i + 1));
    }
}

/// The pieces of data of a root branch, with a byte each for their type
/// ids, are its weight.
proof fn lemma_root_leaves_weight(p: PathSpec, node: RootNode)
    ensures
        leaf_sizes(root_leaves(p, node)) + root_leaves(p, node).len() == root_weight(node),
    decreases node, 0nat,
{
    match node {
        RootNode::Object(fields) => lemma_root_named_leaves_weight(p, fields, 0),
        RootNode::Tuple(kids) => lemma_root_tuple_leaves_weight(p, kids, 0),
        RootNode::Enum(name, value) => lemma_root_leaves_weight(step(p, decode_utf8(name), "Enum"@), *value),
        RootNode::Array1(value) => lemma_root_leaves_weight(step(p, "1"@, "Array1"@), *value),
        RootNode::Array(len, values) => lemma_array_leaves_weight(
            step(p, seq!['['] + decimal(len as nat) + seq![']'], "Array"@),
            values,
        ),
        RootNode::Map1(key, value) => {
            let a = root_leaves(step(p, "key"@, "Map1"@), *key);
            let b = root_leaves(step(p, "value"@, "Map1"@), *value);
            lemma_root_leaves_weight(step(p, "key"@, "Map1"@), *key);
            lemma_root_leaves_weight(step(p, "value"@, "Map1"@), *value);
            lemma_leaf_sizes_concat(a, b);
        },
        RootNode::Mapping(_, keys, values) => {
            let a = array_leaves(step(p, "keys"@, "Map"@), keys);
            let b = array_leaves(step(p, "values"@, "Values"@), values);
            lemma_array_leaves_weight(step(p, "keys"@, "Map"@), keys);
            lemma_array_leaves_weight(step(p, "values"@, "Values"@), values);
            lemma_leaf_sizes_concat(a, b);
        },
        _ => {},
    }
}

/// The weight of named root children, through their leaves.
proof fn lemma_root_named_leaves_weight(p: PathSpec, fields: Seq<(Seq<u8>, RootNode)>, i: int)
    ensures
        leaf_sizes(named_root_leaves(p, fields, i)) + named_root_leaves(p, fields, i).len() == root_named_weight(
            fields,
            i,
        ),
    decreases fields, fields.len() - i,
{
    if 0 <= i < fields.len() {
        let a = root_leaves(step(p, decode_utf8(fields[i].0), "Object"@), fields[i].1);
        lemma_root_leaves_weight(step(p, decode_utf8(fields[i].0), "Object"@), fields[i].1);
        lemma_root_named_leaves_weight(p, fields, i + 1);
        lemma_leaf_sizes_concat(a, named_root_leaves(p, fields, i + 1));
    }
}

/// The weight of root children, through their leaves.
proof fn lemma_root_tuple_leaves_weight(p: PathSpec, kids: Seq<RootNode>, i: int)
    ensures
        leaf_sizes(tuple_root_leaves(p, kids, i)) + tuple_root_leaves(p, kids, i).len() == root_kids_weight(
            kids,
            i,
        ),
    decreases kids, kids.len() - i,
{
    if 0 <= i < kids.len() {
        let a = root_leaves(step(p, decimal(i as nat), "Tuple"@), kids[i]);
        lemma_root_leaves_weight(step(p, decimal(i as nat), "Tuple"@), kids[i]);
        lemma_root_tuple_leaves_weight(p, kids, i + 1);
        lemma_leaf_sizes_concat(a, tuple_root_leaves(p, kids, i + 1));
    }
}

/// Replacing an entry by encoding trades its size for the new one's.
proof fn lemma_accounted_update(s: Seq<(Seq<char>, nat, nat)>, i: int, e: (Seq<char>, nat, nat))
    requires
        0 <= i < s.len(),
    ensures
        accounted(s.update(i, e)) + s[i].2 == accounted(s) + e.2,
    decreases s.len(),
{
    if i < s.len() - 1 {
        assert(s.update(i, e).drop_last() =~= s.drop_last().update(i, e));
        lemma_accounted_update(s.drop_last(), i, e);
    } else {
        assert(s.update(i, e).drop_last() =~= s.drop_last());
    }
}

/// Sorting keeps the bytes accounted for.
proof fn lemma_accounted_sort(s: Seq<(Seq<char>, nat, nat)>)
    ensures
        accounted(sort_desc(s, |e: (Seq<char>, nat, nat)| type_size(e))) == accounted(s),
    decreases s.len(),
{
    if s.len() > 0 {
        lemma_accounted_sort(s.drop_last());
        lemma_accounted_insert(sort_desc(s.drop_last(), |e: (Seq<char>, nat, nat)| type_size(e)), s.last());
    }
}

/// Inserting an entry adds its size.
proof fn lemma_accounted_insert(s: Seq<(Seq<char>, nat, nat)>, x: (Seq<char>, nat, nat))
    ensures
        accounted(insert_desc(s, x, |e: (Seq<char>, nat, nat)| type_size(e))) == accounted(s) + x.2,
    decreases s.len(),
{
    if s.len() == 0 {
        assert(seq![x].drop_last() =~= Seq::<(Seq<char>, nat, nat)>::empty());
        reveal_with_fuel(accounted, 2);
    } else if s.last().2 >= x.2 {
        assert(s.push(x).drop_last() =~= s);

    } else {
        lemma_accounted_insert(s.drop_last(), x);
        let t = insert_desc(s.drop_last(), x, |e: (Seq<char>, nat, nat)| type_size(e));
        assert(t.push(s.last()).drop_last() =~= t);

    }
}

/// What gathering pieces of data into an empty breakdown gives: the paths
/// in order, the bytes by encoding adding up to those of the pieces, and
/// each count and size bounded by those of all the pieces.
proof fn lemma_add_all_facts(total: nat, leaves: Seq<LeafSpec>)
    ensures
        ({
            let b = add_all(empty_breakdown(total), leaves);
            &&& b.0.len() == leaves.len()
            &&& forall|i: int| 0 <= i < leaves.len() ==> #[trigger] b.0[i].0 == leaves[i].0
            &&& accounted(b.1) == leaf_sizes(leaves)
            &&& forall|j: int|
                0 <= j < b.1.len() ==> #[trigger] b.1[j].1 <= leaves.len() && b.1[j].2 <= leaf_sizes(leaves)
            &&& b.2 == total
        }),
    decreases leaves.len(),
{
    if leaves.len() > 0 {
        let prefix = leaves.drop_last();
        let l = leaves.last();
        lemma_add_all_facts(total, prefix);
        let b = add_all(empty_breakdown(total), prefix);
        match type_index(b.1, l.2) {
            Some(i) => {
                lemma_type_index(b.1, l.2);
                lemma_accounted_update(b.1, i, (l.2, b.1[i].1 + 1, b.1[i].2 + l.3));
            },
            None => {
                assert(b.1.push((l.2, 1nat, l.3)).drop_last() =~= b.1);
            },
        }
    }
}

/// Gathering pieces of data with distinct paths into an empty breakdown is
/// defined where they fit the document.
proof fn lemma_adds_ok(total: nat, leaves: Seq<LeafSpec>)
    requires
        distinct_paths(leaves),
        leaf_sizes(leaves) + leaves.len() <= total <= usize::MAX,
    ensures
        adds_ok(empty_breakdown(total), leaves),
    decreases leaves.len(),
{
    if leaves.len() > 0 {
        let prefix = leaves.drop_last();
        let l = leaves.last();
        assert(leaf_sizes(prefix) + prefix.len() <= total);
        lemma_adds_ok(total, prefix);
        lemma_add_all_facts(total, prefix);
        let b = add_all(empty_breakdown(total), prefix);
        assert(!has_path(b.0, l.0)) by {
            if has_path(b.0, l.0) {
                let i = choose|i: int| 0 <= i < b.0.len() && #[trigger] b.0[i].0 == l.0;
                assert(leaves[i].0 != leaves[leaves.len() - 1].0);
            }
        }
        match type_index(b.1, l.2) {
            Some(i) => {
                lemma_type_index(b.1, l.2);
                assert(b.1[i].1 <= prefix.len());
                assert(b.1[i].2 <= leaf_sizes(prefix));
            },
            None => {},
        }
    }
}

} // verus!
