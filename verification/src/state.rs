//! The interpreter's mutable state: the arena of scope frames, the flat
//! binding table keyed by (name, frame), the instance arena, the flat field
//! table keyed by (instance, member name, owning class), and the output
//! buffer — together with its mathematical model and well-formedness.
//!
//! Frames are never freed: a frame lives as long as any closure that
//! captured it, and the arena makes such sharing a plain index. Each frame
//! records only its parent; a frame's bindings live in the flat table.

use vstd::prelude::*;
use vstd::pervasive::VecAdditionalExecFns;
use crate::value::{ValM, Value};

verus! {

/// The arena of scope frames: entry `f` holds the parent of frame `f`
/// (`None` for the global frame). Frame 0 is the global frame.
#[derive(Debug)]
pub struct Framelist {
    pub parents: Vec<Option<usize>>,
}

/// One entry of the binding table: the value bound to `name` in frame
/// `frame`. Later entries shadow earlier ones with the same key.
#[derive(Debug)]
pub struct Binding {
    pub name: String,
    pub frame: usize,
    pub value: Value,
}

/// Model of a binding-table entry.
#[verifier::ext_equal]
pub struct BindM {
    pub name: Seq<char>,
    pub frame: usize,
    pub value: ValM,
}

impl DeepView for Binding {
    type V = BindM;

    open spec fn deep_view(&self) -> BindM {
        BindM { name: self.name@, frame: self.frame, value: self.value@ }
    }
}

/// One entry of the field table: the value of member `name` of instance
/// `inst`, keyed by the owning class `owner`. Later entries shadow earlier
/// ones with the same key.
#[derive(Debug)]
pub struct FieldCell {
    pub inst: usize,
    pub name: String,
    pub owner: String,
    pub value: Value,
}

/// Model of a field-table entry.
#[verifier::ext_equal]
pub struct FieldM {
    pub inst: usize,
    pub name: Seq<char>,
    pub owner: Seq<char>,
    pub value: ValM,
}

impl DeepView for FieldCell {
    type V = FieldM;

    open spec fn deep_view(&self) -> FieldM {
        FieldM { inst: self.inst, name: self.name@, owner: self.owner@, value: self.value@ }
    }
}

/// The full interpreter state.
#[derive(Debug)]
pub struct Interp {
    /// The frame arena.
    pub frames: Framelist,
    /// The binding table.
    pub binds: Vec<Binding>,
    /// The instance arena: entry `i` is the name of instance `i`'s
    /// most-derived class.
    pub inst_class: Vec<String>,
    /// The field table.
    pub fields: Vec<FieldCell>,
    /// The lines printed so far.
    pub output: Vec<String>,
}

/// Model of the interpreter state.
#[verifier::ext_equal]
pub struct StM {
    pub parents: Seq<Option<usize>>,
    pub binds: Seq<BindM>,
    pub inst_class: Seq<Seq<char>>,
    pub fields: Seq<FieldM>,
    pub output: Seq<Seq<char>>,
}

impl View for Interp {
    type V = StM;

    open spec fn view(&self) -> StM {
        StM {
            parents: self.frames.parents@,
            binds: self.binds.deep_view(),
            inst_class: self.inst_class.deep_view(),
            fields: self.fields.deep_view(),
            output: self.output.deep_view(),
        }
    }
}

/// The frame arena is well-formed: there is a global frame, and every
/// parent link points to an earlier frame (so parent chains are finite).
pub open spec fn frames_wf(parents: Seq<Option<usize>>) -> bool {
    &&& parents.len() >= 1
    &&& parents[0] is None
    &&& forall|i: int|
        0 <= i < parents.len() ==> ((#[trigger] parents[i]) matches Some(p) ==> p < i)
}

/// A value is well-formed in a state: every frame or instance index it
/// carries points into the respective arena.
pub open spec fn val_wf(st: StM, v: ValM) -> bool {
    match v {
        ValM::Function(f) => f.frame < st.parents.len() && (f.receiver matches Some(r) ==> r
            < st.inst_class.len()),
        ValM::Instance(i) => i < st.inst_class.len(),
        _ => true,
    }
}

/// The whole state is well-formed: frames are well-formed and every value
/// stored in a binding or a field is well-formed, with in-range keys.
pub open spec fn st_wf(st: StM) -> bool {
    &&& frames_wf(st.parents)
    &&& forall|i: int|
        0 <= i < st.binds.len() ==> (#[trigger] st.binds[i]).frame < st.parents.len() && val_wf(
            st,
            st.binds[i].value,
        )
    &&& forall|i: int|
        0 <= i < st.fields.len() ==> (#[trigger] st.fields[i]).inst < st.inst_class.len() && val_wf(
            st,
            st.fields[i].value,
        )
}

/// The receiver context is well-formed: if a receiver is bound, it points
/// into the instance arena.
pub open spec fn obj_wf(st: StM, obj: Option<usize>) -> bool {
    obj matches Some(i) ==> i < st.inst_class.len()
}

/// State `b` extends state `a`: the arenas only ever grow, so indices into
/// `a` remain valid in `b`.
pub open spec fn st_extends(a: StM, b: StM) -> bool {
    a.parents.len() <= b.parents.len() && a.inst_class.len() <= b.inst_class.len()
}

/// Well-formedness of a value is preserved when the state grows.
pub proof fn lemma_val_wf_mono(a: StM, b: StM, v: ValM)
    requires
        st_extends(a, b),
        val_wf(a, v),
    ensures
        val_wf(b, v),
{
}

/// Pushing a well-formed binding preserves state well-formedness.
pub proof fn lemma_st_wf_push_bind(st: StM, b: BindM)
    requires
        st_wf(st),
        b.frame < st.parents.len(),
        val_wf(st, b.value),
    ensures
        st_wf(StM { binds: st.binds.push(b), ..st }),
{
    let st2 = StM { binds: st.binds.push(b), ..st };
    assert forall|i: int| 0 <= i < st2.binds.len() implies (#[trigger] st2.binds[i]).frame
        < st2.parents.len() && val_wf(st2, st2.binds[i].value) by {
        if i < st.binds.len() {
            assert(st2.binds[i] == st.binds[i]);
        } else {
            assert(st2.binds[i] == b);
        }
    }
}

/// Overwriting a binding's value with a well-formed value preserves state
/// well-formedness.
pub proof fn lemma_st_wf_update_bind(st: StM, i: int, v: ValM)
    requires
        st_wf(st),
        0 <= i < st.binds.len(),
        val_wf(st, v),
    ensures
        st_wf(
            StM { binds: st.binds.update(i, BindM { value: v, ..st.binds[i] }), ..st },
        ),
{
    let st2 = StM { binds: st.binds.update(i, BindM { value: v, ..st.binds[i] }), ..st };
    assert forall|j: int| 0 <= j < st2.binds.len() implies (#[trigger] st2.binds[j]).frame
        < st2.parents.len() && val_wf(st2, st2.binds[j].value) by {
        if j != i {
            assert(st2.binds[j] == st.binds[j]);
        }
    }
}

/// Opening a frame under an existing parent preserves state
/// well-formedness.
pub proof fn lemma_st_wf_push_frame(st: StM, parent: usize)
    requires
        st_wf(st),
        parent < st.parents.len(),
    ensures
        st_wf(StM { parents: st.parents.push(Some(parent)), ..st }),
{
    let st2 = StM { parents: st.parents.push(Some(parent)), ..st };
    assert(frames_wf(st2.parents));
    assert forall|i: int| 0 <= i < st2.binds.len() implies (#[trigger] st2.binds[i]).frame
        < st2.parents.len() && val_wf(st2, st2.binds[i].value) by {
        assert(st.binds[i].frame < st.parents.len());
        assert(val_wf(st, st.binds[i].value));
    }
    assert forall|i: int| 0 <= i < st2.fields.len() implies (#[trigger] st2.fields[i]).inst
        < st2.inst_class.len() && val_wf(st2, st2.fields[i].value) by {
        assert(val_wf(st, st.fields[i].value));
    }
}

/// Allocating an instance preserves state well-formedness.
pub proof fn lemma_st_wf_push_instance(st: StM, class: Seq<char>)
    requires
        st_wf(st),
    ensures
        st_wf(StM { inst_class: st.inst_class.push(class), ..st }),
{
    let st2 = StM { inst_class: st.inst_class.push(class), ..st };
    assert forall|i: int| 0 <= i < st2.binds.len() implies (#[trigger] st2.binds[i]).frame
        < st2.parents.len() && val_wf(st2, st2.binds[i].value) by {
        assert(val_wf(st, st.binds[i].value));
    }
    assert forall|i: int| 0 <= i < st2.fields.len() implies (#[trigger] st2.fields[i]).inst
        < st2.inst_class.len() && val_wf(st2, st2.fields[i].value) by {
        assert(val_wf(st, st.fields[i].value));
    }
}

/// Pushing a well-formed field cell preserves state well-formedness.
pub proof fn lemma_st_wf_push_field(st: StM, f: FieldM)
    requires
        st_wf(st),
        f.inst < st.inst_class.len(),
        val_wf(st, f.value),
    ensures
        st_wf(StM { fields: st.fields.push(f), ..st }),
{
    let st2 = StM { fields: st.fields.push(f), ..st };
    assert forall|i: int| 0 <= i < st2.fields.len() implies (#[trigger] st2.fields[i]).inst
        < st2.inst_class.len() && val_wf(st2, st2.fields[i].value) by {
        if i < st.fields.len() {
            assert(st2.fields[i] == st.fields[i]);
        } else {
            assert(st2.fields[i] == f);
        }
    }
}

/// Appending output preserves state well-formedness.
pub proof fn lemma_st_wf_output(st: StM, line: Seq<char>)
    requires
        st_wf(st),
    ensures
        st_wf(StM { output: st.output.push(line), ..st }),
{
    let st2 = StM { output: st.output.push(line), ..st };
    assert forall|i: int| 0 <= i < st2.binds.len() implies (#[trigger] st2.binds[i]).frame
        < st2.parents.len() && val_wf(st2, st2.binds[i].value) by {
        assert(val_wf(st, st.binds[i].value));
    }
    assert forall|i: int| 0 <= i < st2.fields.len() implies (#[trigger] st2.fields[i]).inst
        < st2.inst_class.len() && val_wf(st2, st2.fields[i].value) by {
        assert(val_wf(st, st.fields[i].value));
    }
}

/// The index of the binding for `name` in exactly frame `frame`, taking the
/// latest entry (later declarations shadow earlier ones). `None` if the
/// frame has no such binding.
pub open spec fn find_bind(binds: Seq<BindM>, name: Seq<char>, frame: usize) -> Option<int>
    decreases binds.len(),
{
    if binds.len() == 0 {
        None
    } else {
        let last = binds.len() - 1;
        if binds[last].name == name && binds[last].frame == frame {
            Some(last)
        } else {
            find_bind(binds.drop_last(), name, frame)
        }
    }
}

/// A found binding index is in range and matches the key.
pub proof fn lemma_find_bind_valid(binds: Seq<BindM>, name: Seq<char>, frame: usize)
    ensures
        find_bind(binds, name, frame) matches Some(i) ==> 0 <= i < binds.len() && binds[i].name
            == name && binds[i].frame == frame,
    decreases binds.len(),
{
    if binds.len() > 0 {
        lemma_find_bind_valid(binds.drop_last(), name, frame);
    }
}

/// The index of the binding that `name` resolves to from frame `f`: the
/// first frame on the parent chain outward from `f` that binds `name` wins.
/// `None` if the chain is exhausted.
pub open spec fn resolve_bind(st: StM, name: Seq<char>, f: usize) -> Option<int>
    decreases f,
{
    match find_bind(st.binds, name, f) {
        Some(i) => Some(i),
        None => match st.parents[f as int] {
            Some(p) => if p < f {
                resolve_bind(st, name, p)
            } else {
                None
            },
            None => None,
        },
    }
}

/// A resolved binding index is in range and names the looked-up name.
pub proof fn lemma_resolve_bind_valid(st: StM, name: Seq<char>, f: usize)
    ensures
        resolve_bind(st, name, f) matches Some(i) ==> 0 <= i < st.binds.len() && st.binds[i].name
            == name,
    decreases f,
{
    lemma_find_bind_valid(st.binds, name, f);
    if find_bind(st.binds, name, f) is None {
        match st.parents[f as int] {
            Some(p) => {
                if p < f {
                    lemma_resolve_bind_valid(st, name, p);
                }
            },
            None => {},
        }
    }
}

/// The index of the field cell for member `name` of instance `inst` owned
/// by class `owner`, taking the latest entry. `None` if absent.
pub open spec fn find_field(
    fields: Seq<FieldM>,
    inst: usize,
    name: Seq<char>,
    owner: Seq<char>,
) -> Option<int>
    decreases fields.len(),
{
    if fields.len() == 0 {
        None
    } else {
        let last = fields.len() - 1;
        if fields[last].inst == inst && fields[last].name == name && fields[last].owner == owner {
            Some(last)
        } else {
            find_field(fields.drop_last(), inst, name, owner)
        }
    }
}

/// A found field index is in range and matches the key.
pub proof fn lemma_find_field_valid(fields: Seq<FieldM>, inst: usize, name: Seq<char>, owner: Seq<char>)
    ensures
        find_field(fields, inst, name, owner) matches Some(i) ==> 0 <= i < fields.len()
            && fields[i].inst == inst && fields[i].name == name && fields[i].owner == owner,
    decreases fields.len(),
{
    if fields.len() > 0 {
        lemma_find_field_valid(fields.drop_last(), inst, name, owner);
    }
}

impl Framelist {
    /// The number of frames.
    pub fn len(&self) -> (r: usize)
        ensures
            r == self.parents@.len(),
    {
        self.parents.len()
    }

    /// The parent of frame `f`.
    pub fn parent_of(&self, f: usize) -> (r: Option<usize>)
        requires
            f < self.parents@.len(),
        ensures
            r == self.parents@[f as int],
    {
        self.parents[f]
    }
}

impl Interp {
    /// A fresh interpreter state: one empty global frame, no instances, no
    /// output.
    pub fn new() -> (r: Interp)
        ensures
            r@ == (StM {
                parents: seq![None::<usize>],
                binds: Seq::<BindM>::empty(),
                inst_class: Seq::<Seq<char>>::empty(),
                fields: Seq::<FieldM>::empty(),
                output: Seq::<Seq<char>>::empty(),
            }),
            st_wf(r@),
    {
        let mut parents: Vec<Option<usize>> = Vec::new();
        parents.push(None);
        let r = Interp {
            frames: Framelist { parents },
            binds: Vec::new(),
            inst_class: Vec::new(),
            fields: Vec::new(),
            output: Vec::new(),
        };
        proof {
            assert(r@.parents =~= seq![None::<usize>]);
            assert(r@.binds =~= Seq::<BindM>::empty());
            assert(r@.inst_class =~= Seq::<Seq<char>>::empty());
            assert(r@.fields =~= Seq::<FieldM>::empty());
            assert(r@.output =~= Seq::<Seq<char>>::empty());
        }
        r
    }

    /// The lines printed so far.
    pub fn output(&self) -> (r: &Vec<String>)
        ensures
            r.deep_view() == self@.output,
    {
        &self.output
    }

    /// Opens a new frame whose parent is `parent` and returns its id.
    pub fn push_frame(&mut self, parent: usize) -> (r: usize)
        requires
            parent < old(self)@.parents.len(),
        ensures
            final(self)@ == (StM {
                parents: old(self)@.parents.push(Some(parent)),
                ..old(self)@
            }),
            r == old(self)@.parents.len(),
            st_wf(old(self)@) ==> st_wf(final(self)@),
    {
        let r = self.frames.parents.len();
        self.frames.parents.push(Some(parent));
        proof {
            assert(final(self)@ =~= (StM {
                parents: old(self)@.parents.push(Some(parent)),
                ..old(self)@
            }));
            if st_wf(old(self)@) {
                assert(st_wf(final(self)@));
            }
        }
        r
    }

    /// Finds the latest binding for `name` in exactly frame `frame`.
    pub fn find_bind_in(&self, name: &String, frame: usize) -> (r: Option<usize>)
        ensures
            match r {
                Some(i) => find_bind(self@.binds, name@, frame) == Some(i as int),
                None => find_bind(self@.binds, name@, frame) is None,
            },
    {
        let mut i: usize = self.binds.len();
        proof {
            assert(self@.binds.take(i as int) =~= self@.binds);
        }
        while i > 0
            invariant
                i <= self.binds.len(),
                find_bind(self@.binds, name@, frame) == find_bind(
                    self@.binds.take(i as int),
                    name@,
                    frame,
                ),
            decreases i,
        {
            let b = &self.binds[i - 1];
            if b.frame == frame && b.name == *name {
                proof {
                    let pre = self@.binds.take(i as int);
                    assert(pre[i - 1] == self@.binds[i - 1]);
                    assert(find_bind(pre, name@, frame) == Some(i - 1 as int));
                }
                return Some(i - 1);
            }
            proof {
                let pre = self@.binds.take(i as int);
                assert(pre[i - 1] == self@.binds[i - 1]);
                assert(pre.drop_last() =~= self@.binds.take(i - 1 as int));
            }
            i = i - 1;
        }
        proof {
            assert(self@.binds.take(0) =~= Seq::<BindM>::empty());
        }
        None
    }

    /// Resolves `name` from frame `f` outward along the parent chain.
    pub fn resolve(&self, name: &String, f: usize) -> (r: Option<usize>)
        requires
            frames_wf(self@.parents),
            f < self@.parents.len(),
        ensures
            match r {
                Some(i) => resolve_bind(self@, name@, f) == Some(i as int) && i < self.binds.len()
                    && self@.binds[i as int].name == name@,
                None => resolve_bind(self@, name@, f) is None,
            },
    {
        let mut cur: usize = f;
        loop
            invariant
                frames_wf(self@.parents),
                cur < self@.parents.len(),
                resolve_bind(self@, name@, f) == resolve_bind(self@, name@, cur),
            decreases cur,
        {
            if let Some(i) = self.find_bind_in(name, cur) {
                proof {
                    lemma_find_bind_valid(self@.binds, name@, cur);
                }
                return Some(i);
            }
            match self.frames.parent_of(cur) {
                Some(p) => {
                    cur = p;
                },
                None => {
                    return None;
                },
            }
        }
    }

    /// Declares `name` in frame `frame`, bound to `value`. Later
    /// declarations of the same name in the same frame shadow earlier ones.
    pub fn declare(&mut self, name: &String, frame: usize, value: Value)
        ensures
            final(self)@ == (StM {
                binds: old(self)@.binds.push(
                    BindM { name: name@, frame, value: value@ },
                ),
                ..old(self)@
            }),
    {
        self.binds.push(Binding { name: name.clone(), frame, value });
        proof {
            assert(final(self)@.binds =~= old(self)@.binds.push(
                BindM { name: name@, frame, value: value@ },
            ));
            assert(final(self)@ =~= (StM {
                binds: old(self)@.binds.push(BindM { name: name@, frame, value: value@ }),
                ..old(self)@
            }));
        }
    }

    /// Overwrites the value of the binding at index `i`.
    pub fn set_bind(&mut self, i: usize, value: Value)
        requires
            i < old(self).binds.len(),
        ensures
            final(self)@ == (StM {
                binds: old(self)@.binds.update(
                    i as int,
                    BindM { value: value@, ..old(self)@.binds[i as int] },
                ),
                ..old(self)@
            }),
    {
        let name = self.binds[i].name.clone();
        let frame = self.binds[i].frame;
        self.binds.set(i, Binding { name, frame, value });
        proof {
            assert(final(self)@.binds =~= old(self)@.binds.update(
                i as int,
                BindM { value: value@, ..old(self)@.binds[i as int] },
            ));
            assert(final(self)@ =~= (StM {
                binds: old(self)@.binds.update(
                    i as int,
                    BindM { value: value@, ..old(self)@.binds[i as int] },
                ),
                ..old(self)@
            }));
        }
    }

    /// Reads the value of the binding at index `i`.
    pub fn bind_value(&self, i: usize) -> (r: Value)
        requires
            i < self.binds.len(),
        ensures
            r@ == self@.binds[i as int].value,
    {
        self.binds[i].value.clone()
    }

    /// Allocates a new instance of class `class` and returns its index.
    pub fn new_instance(&mut self, class: &String) -> (r: usize)
        ensures
            final(self)@ == (StM {
                inst_class: old(self)@.inst_class.push(class@),
                ..old(self)@
            }),
            r == old(self)@.inst_class.len(),
    {
        let r = self.inst_class.len();
        self.inst_class.push(class.clone());
        proof {
            assert(final(self)@.inst_class =~= old(self)@.inst_class.push(class@));
            assert(final(self)@ =~= (StM {
                inst_class: old(self)@.inst_class.push(class@),
                ..old(self)@
            }));
        }
        r
    }

    /// The class name of instance `inst`.
    pub fn instance_class(&self, inst: usize) -> (r: String)
        requires
            inst < self.inst_class.len(),
        ensures
            r@ == self@.inst_class[inst as int],
    {
        self.inst_class[inst].clone()
    }

    /// Inserts a field cell for member `name` of instance `inst`, owned by
    /// class `owner`. A later cell with the same key shadows earlier ones.
    pub fn push_field(&mut self, inst: usize, name: &String, owner: &String, value: Value)
        ensures
            final(self)@ == (StM {
                fields: old(self)@.fields.push(
                    FieldM { inst, name: name@, owner: owner@, value: value@ },
                ),
                ..old(self)@
            }),
    {
        self.fields.push(FieldCell { inst, name: name.clone(), owner: owner.clone(), value });
        proof {
            assert(final(self)@.fields =~= old(self)@.fields.push(
                FieldM { inst, name: name@, owner: owner@, value: value@ },
            ));
            assert(final(self)@ =~= (StM {
                fields: old(self)@.fields.push(
                    FieldM { inst, name: name@, owner: owner@, value: value@ },
                ),
                ..old(self)@
            }));
        }
    }

    /// Finds the latest field cell for `(inst, name, owner)`.
    pub fn find_field_in(&self, inst: usize, name: &String, owner: &String) -> (r: Option<usize>)
        ensures
            match r {
                Some(i) => find_field(self@.fields, inst, name@, owner@) == Some(i as int) && i
                    < self.fields.len(),
                None => find_field(self@.fields, inst, name@, owner@) is None,
            },
    {
        let mut i: usize = self.fields.len();
        proof {
            assert(self@.fields.take(i as int) =~= self@.fields);
        }
        while i > 0
            invariant
                i <= self.fields.len(),
                find_field(self@.fields, inst, name@, owner@) == find_field(
                    self@.fields.take(i as int),
                    inst,
                    name@,
                    owner@,
                ),
            decreases i,
        {
            let c = &self.fields[i - 1];
            if c.inst == inst && c.name == *name && c.owner == *owner {
                proof {
                    let pre = self@.fields.take(i as int);
                    assert(pre[i - 1] == self@.fields[i - 1]);
                    assert(find_field(pre, inst, name@, owner@) == Some(i - 1 as int));
                }
                return Some(i - 1);
            }
            proof {
                let pre = self@.fields.take(i as int);
                assert(pre[i - 1] == self@.fields[i - 1]);
                assert(pre.drop_last() =~= self@.fields.take(i - 1 as int));
            }
            i = i - 1;
        }
        proof {
            assert(self@.fields.take(0) =~= Seq::<FieldM>::empty());
        }
        None
    }

    /// Reads the value of the field cell at index `i`.
    pub fn field_value(&self, i: usize) -> (r: Value)
        requires
            i < self.fields.len(),
        ensures
            r@ == self@.fields[i as int].value,
    {
        self.fields[i].value.clone()
    }

    /// Appends one printed line to the output buffer.
    pub fn emit(&mut self, line: String)
        ensures
            final(self)@ == (StM { output: old(self)@.output.push(line@), ..old(self)@ }),
    {
        self.output.push(line);
        proof {
            assert(final(self)@.output =~= old(self)@.output.push(line@));
            assert(final(self)@ =~= (StM { output: old(self)@.output.push(line@), ..old(self)@ }));
        }
    }
}

} // verus!
