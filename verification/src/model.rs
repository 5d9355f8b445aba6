//! Plain in-memory description of a trained network: operator records,
//! constant tensors, declared inputs and outputs, and the table mapping
//! tensor names to shapes.

use vstd::prelude::*;

use crate::text::str_eq;

verus! {

/// A typed attribute value attached to an operator record.
///
/// Real-valued attributes are carried as the raw bit pattern of a 32-bit
/// float; this crate never computes with them, it only passes them through
/// to the rendering context.
#[derive(Clone)]
pub enum AttributeValue {
    Int(i64),
    Ints(Vec<i64>),
    Text(String),
    FloatBits(u32),
}

/// A named attribute of an operator record.
#[derive(Clone)]
pub struct AttributeProto {
    pub name: String,
    pub value: AttributeValue,
}

/// One computation step of the network description: an operator with its
/// type, named inputs and outputs, and attributes.
#[derive(Clone)]
pub struct NodeProto {
    /// Optional diagnostic name; nodes are identified by their first
    /// output's name instead.
    pub name: String,
    pub op_type: String,
    pub input: Vec<String>,
    pub output: Vec<String>,
    pub attribute: Vec<AttributeProto>,
}

/// A constant tensor bundled with the network (weights and biases); only
/// its name matters for graph construction.
#[derive(Clone)]
pub struct TensorProto {
    pub name: String,
}

/// A declared value of the graph: a name together with its shape, given as
/// the ordered list of dimension sizes.
#[derive(Clone)]
pub struct ValueInfoProto {
    pub name: String,
    pub shape: Vec<u64>,
}

/// The read-only description of a trained network.
pub struct ModelProto {
    pub node: Vec<NodeProto>,
    pub initializer: Vec<TensorProto>,
    pub input: Vec<ValueInfoProto>,
    pub output: Vec<ValueInfoProto>,
    pub value_info: Vec<ValueInfoProto>,
}

/// The first attribute of `attrs` named `name`, if any.
pub open spec fn first_attr(attrs: Seq<AttributeProto>, name: Seq<char>) -> Option<AttributeValue>
    decreases attrs.len(),
{
    if attrs.len() == 0 {
        None
    } else if attrs[0].name@ == name {
        Some(attrs[0].value)
    } else {
        first_attr(attrs.drop_first(), name)
    }
}

impl NodeProto {
    /// The attribute lookup used by the kernel compiler: the first
    /// attribute with the given name.
    pub open spec fn attr_spec(self, name: Seq<char>) -> Option<AttributeValue> {
        first_attr(self.attribute@, name)
    }

    pub fn get_attribute(&self, name: &str) -> (r: Option<&AttributeValue>)
        ensures
            match r {
                Some(v) => self.attr_spec(name@) == Some(*v),
                None => self.attr_spec(name@) is None,
            },
    {
        let n = self.attribute.len();
        let mut i: usize = 0;
        proof {
            assert(self.attribute@.skip(0) =~= self.attribute@);
        }
        while i < n
            invariant
                n == self.attribute@.len(),
                i <= n,
                first_attr(self.attribute@, name@) == first_attr(
                    self.attribute@.skip(i as int),
                    name@,
                ),
            decreases n - i,
        {
            proof {
                reveal_with_fuel(first_attr, 2);
                assert(self.attribute@.skip(i as int).drop_first() =~= self.attribute@.skip(
                    i + 1,
                ));
                assert(self.attribute@.skip(i as int)[0] == self.attribute@[i as int]);
            }
            if str_eq(self.attribute[i].name.as_str(), name) {
                return Some(&self.attribute[i].value);
            }
            i += 1;
        }
        proof {
            reveal_with_fuel(first_attr, 1);
            assert(self.attribute@.skip(n as int) =~= Seq::<AttributeProto>::empty());
        }
        None
    }

    /// The name a node is known under: its first output's name. Output
    /// names are required and unique in the source description, while
    /// record names are optional and merely diagnostic.
    pub fn unique_name(&self) -> (r: String)
        requires
            self.output@.len() > 0,
        ensures
            r@ == self.output@[0]@,
    {
        self.output[0].clone()
    }
}

/// One entry of the shape table.
pub struct ShapeEntry {
    pub name: String,
    pub dims: Vec<u64>,
}

/// Mapping from tensor name to shape, built once per model.
pub struct ShapeTable {
    entries: Vec<ShapeEntry>,
}

impl ShapeTable {
    /// Entry names are pairwise distinct, so each name denotes one shape.
    pub closed spec fn wf(self) -> bool {
        forall|i: int, j: int|
            0 <= i < j < self.entries@.len() ==> self.entries@[i].name@ != self.entries@[j].name@
    }

    pub closed spec fn contains_spec(self, name: Seq<char>) -> bool {
        exists|i: int| 0 <= i < self.entries@.len() && self.entries@[i].name@ == name
    }

    /// The shape registered under `name`.
    pub closed spec fn shape_spec(self, name: Seq<char>) -> Seq<u64> {
        let i = choose|i: int| 0 <= i < self.entries@.len() && self.entries@[i].name@ == name;
        self.entries@[i].dims@
    }

    pub fn new() -> (r: ShapeTable)
        ensures
            r.wf(),
            forall|n: Seq<char>| !r.contains_spec(n),
    {
        ShapeTable { entries: Vec::new() }
    }

    fn position_of(&self, name: &str) -> (r: Option<usize>)
        ensures
            match r {
                Some(i) => i < self.entries@.len() && self.entries@[i as int].name@ == name@,
                None => !self.contains_spec(name@),
            },
    {
        let n = self.entries.len();
        let mut i: usize = 0;
        while i < n
            invariant
                n == self.entries@.len(),
                i <= n,
                forall|j: int| 0 <= j < i ==> self.entries@[j].name@ != name@,
            decreases n - i,
        {
            if str_eq(self.entries[i].name.as_str(), name) {
                return Some(i);
            }
            i += 1;
        }
        None
    }

    /// Registers `dims` under `name`, replacing any earlier entry with the
    /// same name; every other name keeps its binding.
    pub fn insert(&mut self, name: String, dims: Vec<u64>)
        requires
            old(self).wf(),
        ensures
            final(self).wf(),
            final(self).contains_spec(name@),
            final(self).shape_spec(name@) == dims@,
            forall|n: Seq<char>|
                n != name@ ==> final(self).contains_spec(n) == old(self).contains_spec(n),
            forall|n: Seq<char>|
                n != name@ && old(self).contains_spec(n) ==> final(self).shape_spec(n) == old(
                    self,
                ).shape_spec(n),
    {
        let pos = self.position_of(name.as_str());
        match pos {
            Some(i) => {
                self.entries[i] = ShapeEntry { name, dims };
                proof {
                    assert(forall|k: int|
                        0 <= k < self.entries@.len() && k != i ==> self.entries@[k]
                            == old(self).entries@[k]);
                    assert(self.entries@[i as int].name@ == old(self).entries@[i as int].name@);
                    assert(self.wf());
                    lemma_lookup_unique(*self, name@);
                    assert forall|n: Seq<char>|
                        n != name@ && old(self).contains_spec(n) implies #[trigger] self.shape_spec(
                        n,
                    ) == old(self).shape_spec(n) && self.contains_spec(n) by {
                        let j = choose|j: int|
                            0 <= j < old(self).entries@.len() && old(self).entries@[j].name@ == n;
                        assert(self.entries@[j].name@ == n);
                        lemma_lookup_unique(*old(self), n);
                        lemma_lookup_unique(*self, n);
                    }
                    assert forall|n: Seq<char>|
                        n != name@ && self.contains_spec(n) implies old(self).contains_spec(n) by {
                        let j = choose|j: int|
                            0 <= j < self.entries@.len() && self.entries@[j].name@ == n;
                        assert(old(self).entries@[j].name@ == n);
                    }
                }
            },
            None => {
                proof {
                    assert(forall|j: int|
                        0 <= j < old(self).entries@.len() ==> old(self).entries@[j].name@ != name@);
                }
                self.entries.push(ShapeEntry { name, dims });
                proof {
                    let m = self.entries@.len() - 1;
                    assert(self.entries@[m].name@ == name@);
                    assert(forall|k: int|
                        0 <= k < m ==> self.entries@[k] == old(self).entries@[k]);
                    assert(self.wf());
                    lemma_lookup_unique(*self, name@);
                    assert forall|n: Seq<char>|
                        n != name@ && old(self).contains_spec(n) implies #[trigger] self.shape_spec(
                        n,
                    ) == old(self).shape_spec(n) && self.contains_spec(n) by {
                        let j = choose|j: int|
                            0 <= j < old(self).entries@.len() && old(self).entries@[j].name@ == n;
                        assert(self.entries@[j].name@ == n);
                        lemma_lookup_unique(*old(self), n);
                        lemma_lookup_unique(*self, n);
                    }
                    assert forall|n: Seq<char>|
                        n != name@ && self.contains_spec(n) implies old(self).contains_spec(n) by {
                        let j = choose|j: int|
                            0 <= j < self.entries@.len() && self.entries@[j].name@ == n;
                        assert(j < m ==> old(self).entries@[j].name@ == n);
                    }
                }
            },
        }
    }

    /// Looks a name up; fails exactly when the table has no entry for it.
    pub fn lookup(&self, name: &str) -> (r: Option<&Vec<u64>>)
        requires
            self.wf(),
        ensures
            match r {
                Some(d) => self.contains_spec(name@) && d@ == self.shape_spec(name@),
                None => !self.contains_spec(name@),
            },
    {
        let pos = self.position_of(name);
        match pos {
            Some(i) => {
                proof {
                    lemma_lookup_unique(*self, name@);
                }
                Some(&self.entries[i].dims)
            },
            None => None,
        }
    }
}

/// In a well-formed table every index whose entry carries `name` is the
/// chosen one, so `shape_spec` does not depend on which entry was found.
proof fn lemma_lookup_unique(t: ShapeTable, name: Seq<char>)
    requires
        t.wf(),
    ensures
        forall|i: int|
            0 <= i < t.entries@.len() && t.entries@[i].name@ == name ==> t.shape_spec(name)
                == t.entries@[i].dims@,
{
    assert forall|i: int|
        0 <= i < t.entries@.len() && t.entries@[i].name@ == name implies t.shape_spec(name)
        == t.entries@[i].dims@ by {
        let j = choose|j: int| 0 <= j < t.entries@.len() && t.entries@[j].name@ == name;
        if i != j {
            assert(t.entries@[i].name@ != t.entries@[j].name@);
        }
    }
}


/// A name is declared by some entry of `vis`.
pub open spec fn vi_declares(vis: Seq<ValueInfoProto>, n: Seq<char>) -> bool {
    exists|j: int| 0 <= j < vis.len() && (#[trigger] vis[j].name@) == n
}

/// A name is declared with a non-empty name by some entry of `vis`.
pub open spec fn out_declares(vis: Seq<ValueInfoProto>, n: Seq<char>) -> bool {
    exists|j: int| 0 <= j < vis.len() && (#[trigger] vis[j].name@) == n && vis[j].name@.len() > 0
}

impl ShapeTable {
    /// Builds the table for a model: every declared value's shape, then
    /// every non-empty-named declared output's shape, later registrations
    /// overriding earlier ones.
    #[verifier::rlimit(100)]
    pub fn for_model(model: &ModelProto) -> (r: ShapeTable)
        ensures
            r.wf(),
            forall|n: Seq<char>|
                #[trigger] r.contains_spec(n) <==> (vi_declares(model.value_info@, n)
                    || out_declares(model.output@, n)),
            forall|o: int|
                0 <= o < model.output@.len() && (#[trigger] model.output@[o].name@).len() > 0 && (
                forall|o2: int|
                    o < o2 < model.output@.len() ==> (#[trigger] model.output@[o2].name@)
                        != model.output@[o].name@) ==> r.shape_spec(model.output@[o].name@)
                    == model.output@[o].shape@,
            forall|j: int|
                0 <= j < model.value_info@.len() && (forall|j2: int|
                    j < j2 < model.value_info@.len() ==> (#[trigger] model.value_info@[j2].name@)
                        != model.value_info@[j].name@) && !out_declares(
                    model.output@,
                    model.value_info@[j].name@,
                ) ==> r.shape_spec((#[trigger] model.value_info@[j]).name@)
                    == model.value_info@[j].shape@,
    {
        let mut table = ShapeTable::new();
        let nv = model.value_info.len();
        let mut j: usize = 0;
        while j < nv
            invariant
                nv == model.value_info@.len(),
                j <= nv,
                table.wf(),
                forall|n: Seq<char>|
                    #[trigger] table.contains_spec(n) <==> vi_declares(
                        model.value_info@.take(j as int),
                        n,
                    ),
                forall|j1: int|
                    0 <= j1 < j && (forall|j2: int|
                        j1 < j2 < j ==> (#[trigger] model.value_info@[j2].name@)
                            != model.value_info@[j1].name@) ==> table.shape_spec(
                        (#[trigger] model.value_info@[j1]).name@,
                    ) == model.value_info@[j1].shape@,
            decreases nv - j,
        {
            let vi = &model.value_info[j];
            let ghost prev = table;
            table.insert(vi.name.clone(), crate::ir::copy_dims(&vi.shape));
            proof {
                assert forall|j1: int|
                    0 <= j1 < j + 1 && (forall|j2: int|
                        j1 < j2 < j + 1 ==> (#[trigger] model.value_info@[j2].name@)
                            != model.value_info@[j1].name@) implies table.shape_spec(
                    (#[trigger] model.value_info@[j1]).name@,
                ) == model.value_info@[j1].shape@ by {
                    if j1 < j {
                        assert(model.value_info@[j as int].name@ != model.value_info@[j1].name@);
                        assert(prev.shape_spec(model.value_info@[j1].name@)
                            == model.value_info@[j1].shape@);
                        assert(model.value_info@.take(j as int)[j1].name@
                            == model.value_info@[j1].name@);
                        assert(vi_declares(
                            model.value_info@.take(j as int),
                            model.value_info@[j1].name@,
                        ));
                        assert(prev.contains_spec(model.value_info@[j1].name@));
                    }
                }
                assert forall|n: Seq<char>| #[trigger] table.contains_spec(n) implies vi_declares(
                    model.value_info@.take(j + 1),
                    n,
                ) by {
                    if n == model.value_info@[j as int].name@ {
                        assert(model.value_info@.take(j + 1)[j as int].name@ == n);
                    } else {
                        let j1 = choose|j1: int|
                            0 <= j1 < j && (#[trigger] model.value_info@.take(j as int)[j1].name@)
                                == n;
                        assert(model.value_info@.take(j + 1)[j1].name@ == n);
                    }
                }
                assert forall|n: Seq<char>|
                    vi_declares(model.value_info@.take(j + 1), n) implies #[trigger] table.contains_spec(
                    n,
                ) by {
                    let j1 = choose|j1: int|
                        0 <= j1 < j + 1 && (#[trigger] model.value_info@.take(j + 1)[j1].name@)
                            == n;
                    if j1 < j {
                        assert(model.value_info@.take(j as int)[j1].name@ == n);
                        assert(vi_declares(model.value_info@.take(j as int), n));
                    }
                }
            }
            j += 1;
        }
        proof {
            assert(model.value_info@.take(nv as int) =~= model.value_info@);
        }
        let ghost table0 = table;
        let no = model.output.len();
        let mut o: usize = 0;
        while o < no
            invariant
                no == model.output@.len(),
                o <= no,
                table.wf(),
                forall|n: Seq<char>|
                    #[trigger] table.contains_spec(n) <==> (vi_declares(model.value_info@, n)
                        || out_declares(model.output@.take(o as int), n)),
                forall|o1: int|
                    0 <= o1 < o && (#[trigger] model.output@[o1].name@).len() > 0 && (forall|
                        o2: int,
                    |
                        o1 < o2 < o ==> (#[trigger] model.output@[o2].name@)
                            != model.output@[o1].name@) ==> table.shape_spec(
                        model.output@[o1].name@,
                    ) == model.output@[o1].shape@,
                forall|n: Seq<char>|
                    !out_declares(model.output@.take(o as int), n) && #[trigger] table0.contains_spec(
                        n,
                    ) ==> table.contains_spec(n) && table.shape_spec(n) == table0.shape_spec(n),
            decreases no - o,
        {
            let vi = &model.output[o];
            let ghost prev = table;
            if !vi.name.as_str().is_empty() {
                table.insert(vi.name.clone(), crate::ir::copy_dims(&vi.shape));
            }
            proof {
                assert forall|n: Seq<char>|
                    !out_declares(model.output@.take(o + 1), n) && #[trigger] table0.contains_spec(
                        n,
                    ) implies table.contains_spec(n) && table.shape_spec(n) == table0.shape_spec(
                    n,
                ) by {
                    assert forall|o2: int|
                        0 <= o2 < o && (#[trigger] model.output@.take(o as int)[o2].name@) == n
                            && model.output@.take(o as int)[o2].name@.len() > 0 implies false by {
                        assert(model.output@.take(o + 1)[o2].name@ == n);
                        assert(out_declares(model.output@.take(o + 1), n));
                    }
                    assert(!out_declares(model.output@.take(o as int), n));
                    if model.output@[o as int].name@.len() > 0 {
                        if model.output@[o as int].name@ == n {
                            assert(model.output@.take(o + 1)[o as int].name@ == n);
                            assert(out_declares(model.output@.take(o + 1), n));
                        }
                        assert(model.output@[o as int].name@ != n);
                    }
                }
                assert forall|o1: int|
                    0 <= o1 < o + 1 && (#[trigger] model.output@[o1].name@).len() > 0 && (forall|
                        o2: int,
                    |
                        o1 < o2 < o + 1 ==> (#[trigger] model.output@[o2].name@)
                            != model.output@[o1].name@) implies table.shape_spec(
                    model.output@[o1].name@,
                ) == model.output@[o1].shape@ by {
                    if o1 < o {
                        assert(model.output@[o as int].name@ != model.output@[o1].name@);
                        assert(prev.shape_spec(model.output@[o1].name@)
                            == model.output@[o1].shape@);
                        assert(model.output@.take(o as int)[o1].name@ == model.output@[o1].name@);
                        assert(out_declares(
                            model.output@.take(o as int),
                            model.output@[o1].name@,
                        ));
                        assert(prev.contains_spec(model.output@[o1].name@));
                    } else {
                        assert(model.output@[o as int].name@.len() > 0);
                    }
                }
                assert forall|n: Seq<char>| #[trigger] table.contains_spec(n) implies (vi_declares(
                    model.value_info@,
                    n,
                ) || out_declares(model.output@.take(o + 1), n)) by {
                    if n == model.output@[o as int].name@ && model.output@[o as int].name@.len()
                        > 0 {
                        assert(model.output@.take(o + 1)[o as int].name@ == n);
                    } else if !vi_declares(model.value_info@, n) {
                        let o1 = choose|o1: int|
                            0 <= o1 < o && (#[trigger] model.output@.take(o as int)[o1].name@) == n
                                && model.output@.take(o as int)[o1].name@.len() > 0;
                        assert(model.output@.take(o + 1)[o1].name@ == n);
                    }
                }
                assert forall|n: Seq<char>|
                    (vi_declares(model.value_info@, n) || out_declares(
                        model.output@.take(o + 1),
                        n,
                    )) implies #[trigger] table.contains_spec(n) by {
                    if !vi_declares(model.value_info@, n) {
                        let o1 = choose|o1: int|
                            0 <= o1 < o + 1 && (#[trigger] model.output@.take(o + 1)[o1].name@)
                                == n && model.output@.take(o + 1)[o1].name@.len() > 0;
                        if o1 < o {
                            assert(model.output@.take(o as int)[o1].name@ == n);
                            assert(out_declares(model.output@.take(o as int), n));
                        }
                    }
                }
            }
            o += 1;
        }
        proof {
            assert(model.output@.take(no as int) =~= model.output@);
            assert forall|j: int|
                0 <= j < model.value_info@.len() && (forall|j2: int|
                    j < j2 < model.value_info@.len() ==> (#[trigger] model.value_info@[j2].name@)
                        != model.value_info@[j].name@) && !out_declares(
                    model.output@,
                    model.value_info@[j].name@,
                ) implies table.shape_spec((#[trigger] model.value_info@[j]).name@)
                == model.value_info@[j].shape@ by {
                let n = model.value_info@[j].name@;
                assert(table0.shape_spec(n) == model.value_info@[j].shape@);
                assert(vi_declares(model.value_info@, n));
                assert(table0.contains_spec(n));
                assert(!out_declares(model.output@.take(no as int), n));
            }
        }
        table
    }
}

} // verus!
