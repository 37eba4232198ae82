//! The object tree a client builds from GetObjectHandles and
//! GetObjectInfo, and its breadth-first flattening into slash-joined
//! paths.
use vstd::prelude::*;
use vstd::string::StringExecFns;
use crate::descriptors::{ObjectInfoV, PtpObjectInfo};

verus! {

broadcast use vstd::seq::group_seq_axioms, vstd::std_specs::vec::group_vec_axioms;

/// The mathematical value of a `PtpObjectTree`.
pub struct TreeV {
    pub handle: u32,
    pub info: ObjectInfoV,
    pub children: Option<Seq<TreeV>>,
}

/// One object and, when it has been fetched, its children.
#[derive(Debug, PartialEq)]
pub struct PtpObjectTree {
    pub handle: u32,
    pub info: PtpObjectInfo,
    pub children: Option<Vec<PtpObjectTree>>,
}

impl View for PtpObjectTree {
    type V = TreeV;

    open spec fn view(&self) -> TreeV
        decreases self,
    {
        TreeV {
            handle: self.handle,
            info: self.info@,
            children: match &self.children {
                Some(cs) => Some(forest_view(cs@)),
                None => None,
            },
        }
    }
}

/// The mathematical values of a forest of subtrees, in order.
pub open spec fn forest_view(cs: Seq<PtpObjectTree>) -> Seq<TreeV>
    decreases cs,
{
    if cs.len() == 0 {
        Seq::empty()
    } else {
        seq![cs[0]@] + forest_view(cs.drop_first())
    }
}

/// How many nodes a tree holds.
pub open spec fn tree_size(t: TreeV) -> nat
    decreases t,
{
    match t.children {
        Some(cs) => 1 + seq_tree_size(cs),
        None => 1,
    }
}

/// How many nodes a forest holds.
pub open spec fn seq_tree_size(cs: Seq<TreeV>) -> nat
    decreases cs,
{
    if cs.len() == 0 {
        0
    } else {
        tree_size(cs[0]) + seq_tree_size(cs.drop_first())
    }
}

/// How many nodes a worklist of prefixed subtrees holds.
pub open spec fn items_size(items: Seq<(Seq<char>, TreeV)>) -> nat
    decreases items,
{
    if items.len() == 0 {
        0nat
    } else {
        tree_size(items[0].1) + items_size(items.drop_first())
    }
}

/// A subtree's path: the prefix, a slash unless the prefix is empty,
/// then the node's filename.
pub open spec fn join_path(prefix: Seq<char>, name: Seq<char>) -> Seq<char> {
    if prefix.len() == 0 {
        name
    } else {
        prefix + seq!['/'] + name
    }
}

/// The children of `t`, each prefixed with `path`.
pub open spec fn child_items(path: Seq<char>, t: TreeV) -> Seq<(Seq<char>, TreeV)> {
    match t.children {
        Some(cs) => Seq::new(cs.len(), |i: int| (path, cs[i])),
        None => Seq::empty(),
    }
}

/// The size of a worklist is additive in its parts.
proof fn lemma_items_size_concat(a: Seq<(Seq<char>, TreeV)>, b: Seq<(Seq<char>, TreeV)>)
    ensures
        items_size(a + b) == items_size(a) + items_size(b),
    decreases a.len(),
{
    if a.len() == 0 {
        assert(a + b =~= b);
    } else {
        assert((a + b).drop_first() =~= a.drop_first() + b);
        lemma_items_size_concat(a.drop_first(), b);
    }
}

/// A node's children, taken as a worklist, hold one node fewer than the
/// node's own subtree.
proof fn lemma_child_items_size(path: Seq<char>, t: TreeV)
    ensures
        items_size(child_items(path, t)) == tree_size(t) - 1,
{
    match t.children {
        Some(cs) => {
            lemma_child_items_size_rec(path, cs);
            assert(child_items(path, t) =~= Seq::new(cs.len(), |i: int| (path, cs[i])));
        },
        None => {},
    }
}

proof fn lemma_child_items_size_rec(path: Seq<char>, cs: Seq<TreeV>)
    ensures
        items_size(Seq::new(cs.len(), |i: int| (path, cs[i]))) == seq_tree_size(cs),
    decreases cs.len(),
{
    let items = Seq::new(cs.len(), |i: int| (path, cs[i]));
    if cs.len() == 0 {
    } else {
        lemma_child_items_size_rec(path, cs.drop_first());
        assert(items.drop_first() =~= Seq::new(cs.drop_first().len(), |i: int| (
            path,
            cs.drop_first()[i],
        )));
    }
}

/// The breadth-first flattening of a worklist of prefixed subtrees:
/// the front item's slash-joined path and subtree come first, and its
/// children go to the back of the queue.
pub open spec fn walk_items(items: Seq<(Seq<char>, TreeV)>) -> Seq<(Seq<char>, TreeV)>
    decreases items_size(items),
    via walk_items_decreases
{
    if items.len() == 0 {
        Seq::empty()
    } else {
        let path = join_path(items[0].0, items[0].1.info.Filename);
        seq![(path, items[0].1)] + walk_items(
            items.drop_first() + child_items(path, items[0].1),
        )
    }
}

#[via_fn]
proof fn walk_items_decreases(items: Seq<(Seq<char>, TreeV)>) {
    if items.len() > 0 {
        let path = join_path(items[0].0, items[0].1.info.Filename);
        lemma_items_size_concat(items.drop_first(), child_items(path, items[0].1));
        lemma_child_items_size(path, items[0].1);
        assert(items_size(items) == tree_size(items[0].1) + items_size(items.drop_first()));
    }
}


/// The forest view is the element-wise view.
pub proof fn lemma_forest_view_is_map(cs: Seq<PtpObjectTree>)
    ensures
        forest_view(cs) == Seq::new(cs.len(), |i: int| cs[i]@),
    decreases cs.len(),
{
    if cs.len() == 0 {
        assert(forest_view(cs) =~= Seq::new(cs.len(), |i: int| cs[i]@));
    } else {
        lemma_forest_view_is_map(cs.drop_first());
        assert(Seq::new(cs.drop_first().len(), |i: int| cs.drop_first()[i]@) =~= Seq::new(
            cs.len(),
            |i: int| cs[i]@,
        ).drop_first());
        assert(forest_view(cs) == seq![cs[0]@] + forest_view(cs.drop_first()));
        assert forall|i: int| 0 <= i < cs.len() implies #[trigger] forest_view(cs)[i]
            == cs[i]@ by {
            if i > 0 {
                assert(forest_view(cs)[i] == forest_view(cs.drop_first())[i - 1]);
                assert(Seq::new(cs.drop_first().len(), |k: int| cs.drop_first()[k]@)[i - 1]
                    == cs.drop_first()[i - 1]@);
            }
        }
        assert(forest_view(cs).len() == cs.len());
        assert(forest_view(cs) =~= Seq::new(cs.len(), |i: int| cs[i]@));
    }
}

impl Clone for PtpObjectInfo {
    /// A field-for-field copy.
    fn clone(&self) -> (r: Self)
        ensures
            r == *self,
    {
        PtpObjectInfo {
            StorageID: self.StorageID,
            ObjectFormat: self.ObjectFormat,
            ProtectionStatus: self.ProtectionStatus,
            ObjectCompressedSize: self.ObjectCompressedSize,
            ThumbFormat: self.ThumbFormat,
            ThumbCompressedSize: self.ThumbCompressedSize,
            ThumbPixWidth: self.ThumbPixWidth,
            ThumbPixHeight: self.ThumbPixHeight,
            ImagePixWidth: self.ImagePixWidth,
            ImagePixHeight: self.ImagePixHeight,
            ImageBitDepth: self.ImageBitDepth,
            ParentObject: self.ParentObject,
            AssociationType: self.AssociationType,
            AssociationDesc: self.AssociationDesc,
            SequenceNumber: self.SequenceNumber,
            Filename: self.Filename.clone(),
            CaptureDate: self.CaptureDate.clone(),
            ModificationDate: self.ModificationDate.clone(),
            Keywords: self.Keywords.clone(),
        }
    }
}

impl Clone for PtpObjectTree {
    /// A deep copy with the same mathematical value.
    fn clone(&self) -> (r: Self)
        ensures
            r@ == self@,
        decreases *self,
    {
        let children: Option<Vec<PtpObjectTree>> = match &self.children {
            Some(cs) => {
                let mut out: Vec<PtpObjectTree> = Vec::new();
                let mut i: usize = 0;
                while i < cs.len()
                    invariant
                        i <= cs@.len(),
                        out@.len() == i,
                        forall|j: int| 0 <= j < i ==> (#[trigger] out@[j])@ == cs@[j]@,
                        self.children is Some,
                        *cs == self.children->Some_0,
                    decreases cs@.len() - i,
                {
                    proof {
                        assert(decreases_to!(*self => self.children));
                        assert(decreases_to!(self.children => self.children->Some_0));
                        assert(decreases_to!(*self => *cs));
                        assert(decreases_to!(*cs => cs@[i as int]));
                    }
                    let c = cs[i].clone();
                    out.push(c);
                    i = i + 1;
                }
                proof {
                    lemma_forest_view_is_map(out@);
                    lemma_forest_view_is_map(cs@);
                    assert(forest_view(out@) =~= forest_view(cs@));
                }
                Some(out)
            },
            None => None,
        };
        let r = PtpObjectTree { handle: self.handle, info: self.info.clone(), children };
        r
    }
}

/// The slash-joined paths and subtree values that a walk yields.
pub open spec fn pairs_view(v: Seq<(String, PtpObjectTree)>) -> Seq<(Seq<char>, TreeV)> {
    Seq::new(v.len(), |i: int| (v[i].0@, v[i].1@))
}

impl PtpObjectTree {
    /// Flatten the tree breadth first into slash-joined paths, each
    /// paired with its subtree.
    pub fn walk(&self) -> (r: Vec<(String, PtpObjectTree)>)
        ensures
            pairs_view(r@) == walk_items(seq![(Seq::<char>::empty(), self@)]),
    {
        let mut input: Vec<(String, PtpObjectTree)> = Vec::new();
        input.push((String::new(), self.clone()));
        let mut output: Vec<(String, PtpObjectTree)> = Vec::new();
        let ghost goal = walk_items(seq![(Seq::<char>::empty(), self@)]);
        proof {
            assert(pairs_view(input@) =~= seq![(Seq::<char>::empty(), self@)]);
            assert(pairs_view(output@) =~= Seq::<(Seq<char>, TreeV)>::empty());
            assert(pairs_view(output@) + walk_items(pairs_view(input@)) =~= goal);
        }
        while input.len() > 0
            invariant
                goal == walk_items(seq![(Seq::<char>::empty(), self@)]),
                goal == pairs_view(output@) + walk_items(pairs_view(input@)),
            decreases items_size(pairs_view(input@)),
        {
            let ghost in0 = pairs_view(input@);
            let ghost out0 = pairs_view(output@);
            let (prefix, item) = input.remove(0);
            let ghost prefixv = prefix@;
            let ghost tv = item@;
            proof {
                assert(pairs_view(input@) =~= in0.drop_first());
                assert((prefixv, tv) == in0[0]);
            }
            let path: String;
            if prefix.as_str().is_empty() {
                path = item.info.Filename.clone();
            } else {
                let mut p2 = prefix;
                p2.append("/");
                p2.append(item.info.Filename.as_str());
                path = p2;
            }
            proof {
                reveal_strlit("/");
                assert("/"@ =~= seq!['/']);
                assert(path@ =~= join_path(prefixv, tv.info.Filename));
            }
            output.push((path.clone(), item.clone()));
            let ghost mid = pairs_view(input@);
            let ghost consumed: int = 0;
            match item.children {
                Some(children) => {
                    let mut children = children;
                    proof {
                        lemma_forest_view_is_map(children@);
                        assert(child_items(path@, tv) =~= Seq::new(children@.len(), |i: int| (
                            path@,
                            children@[i]@,
                        )));
                    }
                    let ghost kids = child_items(path@, tv);
                    let ghost done: int = 0;
                    while children.len() > 0
                        invariant
                            0 <= done <= kids.len(),
                            children@.len() == kids.len() - done,
                            forall|j: int| 0 <= j < children@.len() ==> kids[done + j] == (
                                path@,
                                (#[trigger] children@[j])@,
                            ),
                            pairs_view(input@) == mid + kids.take(done),
                        decreases children@.len(),
                    {
                        let ghost ch0 = children@;
                        let c = children.remove(0);
                        input.push((path.clone(), c));
                        proof {
                            assert(c@ == ch0[0]@);
                            assert(kids[done] == (path@, c@));
                            assert(pairs_view(input@) =~= (mid + kids.take(done)).push(
                                kids[done],
                            ));
                            assert((mid + kids.take(done)).push(kids[done]) =~= mid + kids.take(
                                done + 1,
                            ));
                            assert(children@ =~= ch0.drop_first());
                            done = done + 1;
                        }
                    }
                    proof {
                        assert(kids.take(kids.len() as int) =~= kids);
                        assert(pairs_view(input@) =~= mid + kids);
                    }
                },
                None => {
                    proof {
                        assert(child_items(path@, tv) =~= Seq::<(Seq<char>, TreeV)>::empty());
                        assert(pairs_view(input@) =~= mid + child_items(path@, tv));
                    }
                },
            }
            proof {
                assert(pairs_view(output@) =~= out0 + seq![(path@, tv)]);
                assert(pairs_view(input@) =~= in0.drop_first() + child_items(path@, tv));
                assert(walk_items(in0) == seq![(path@, tv)] + walk_items(
                    in0.drop_first() + child_items(path@, tv),
                ));
                assert(pairs_view(output@) + walk_items(pairs_view(input@)) =~= goal);
                lemma_items_size_concat(in0.drop_first(), child_items(path@, tv));
                lemma_child_items_size(path@, tv);
                assert(items_size(in0) == tree_size(in0[0].1) + items_size(in0.drop_first()));
            }
        }
        proof {
            assert(pairs_view(input@) =~= Seq::<(Seq<char>, TreeV)>::empty());
            assert(pairs_view(output@) + walk_items(pairs_view(input@)) =~= pairs_view(output@));
        }
        output
    }
}

} // verus!
