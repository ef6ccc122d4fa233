//! The frame-chain environment: a growable arena of scope frames, each a
//! name-to-value table plus an optional parent-frame index. Frame 0 is the
//! always-present root frame; frames are only ever appended, never removed,
//! and are addressed purely by index.

use vstd::prelude::*;

use crate::value::{Value, ValueV};

verus! {

/// One name-to-value binding inside a frame.
#[derive(Debug, PartialEq)]
pub struct Binding {
    pub name: String,
    pub value: Value,
}

/// The mathematical value of a binding.
#[verifier::ext_equal]
pub ghost struct BindingV {
    pub name: Seq<char>,
    pub value: ValueV,
}

impl View for Binding {
    type V = BindingV;

    open spec fn view(&self) -> BindingV {
        BindingV { name: self.name@, value: self.value@ }
    }
}

impl DeepView for Binding {
    type V = BindingV;

    open spec fn deep_view(&self) -> BindingV {
        self.view()
    }
}

/// One scope frame: its bindings, in insertion order, and the index of its
/// parent frame, if any.
#[derive(Debug, PartialEq)]
pub struct Frame {
    pub variables: Vec<Binding>,
    pub parent: Option<usize>,
}

/// The mathematical value of a frame.
#[verifier::ext_equal]
pub ghost struct FrameV {
    pub vars: Seq<BindingV>,
    pub parent: Option<int>,
}

impl View for Frame {
    type V = FrameV;

    open spec fn view(&self) -> FrameV {
        FrameV {
            vars: self.variables.deep_view(),
            parent: match self.parent {
                Some(p) => Some(p as int),
                None => None,
            },
        }
    }
}

impl DeepView for Frame {
    type V = FrameV;

    open spec fn deep_view(&self) -> FrameV {
        self.view()
    }
}

/// The environment: the arena of frames, and the values printed so far by
/// the `print` statement (the surrounding program forwards them to its own
/// output once evaluation is over).
#[derive(Debug, PartialEq)]
pub struct Environment {
    pub envs: Vec<Frame>,
    pub printed: Vec<Value>,
}

/// The mathematical value of an environment.
#[verifier::ext_equal]
pub ghost struct EnvV {
    pub frames: Seq<FrameV>,
    pub printed: Seq<ValueV>,
}

impl View for Environment {
    type V = EnvV;

    open spec fn view(&self) -> EnvV {
        EnvV { frames: self.envs.deep_view(), printed: self.printed.deep_view() }
    }
}

/// The value bound to `name` inside one frame: the first binding whose name
/// matches, or `None` if the frame does not bind the name.
pub open spec fn frame_lookup(vars: Seq<BindingV>, name: Seq<char>) -> Option<ValueV>
    decreases vars.len(),
{
    if vars.len() == 0 {
        None
    } else if vars[0].name == name {
        Some(vars[0].value)
    } else {
        frame_lookup(vars.drop_first(), name)
    }
}

/// One frame's bindings after storing `value` under `name`: the first
/// binding of that name is overwritten in place, or a new binding is
/// appended if the frame does not bind the name.
pub open spec fn frame_store(vars: Seq<BindingV>, name: Seq<char>, value: ValueV) -> Seq<BindingV>
    decreases vars.len(),
{
    if vars.len() == 0 {
        seq![BindingV { name, value }]
    } else if vars[0].name == name {
        seq![BindingV { name, value }] + vars.drop_first()
    } else {
        seq![vars[0]] + frame_store(vars.drop_first(), name, value)
    }
}

/// Well-formedness of a frame arena: there is a root frame, the root has no
/// parent, and every parent link points strictly downwards.
pub open spec fn frames_wf(frames: Seq<FrameV>) -> bool {
    &&& frames.len() >= 1
    &&& frames[0].parent is None
    &&& forall|i: int|
        0 <= i < frames.len() ==> (#[trigger] frames[i].parent matches Some(p) ==> 0 <= p < i)
}

/// The value bound to `name`, searching the frame `fi`, then its parent,
/// then grandparent, and so on; `None` once the chain is exhausted.
pub open spec fn env_lookup(frames: Seq<FrameV>, name: Seq<char>, fi: int) -> Option<ValueV>
    recommends
        frames_wf(frames),
        0 <= fi < frames.len(),
    decreases fi + 1,
{
    if 0 <= fi < frames.len() {
        match frame_lookup(frames[fi].vars, name) {
            Some(v) => Some(v),
            None => match frames[fi].parent {
                Some(p) => if 0 <= p < fi {
                    env_lookup(frames, name, p)
                } else {
                    None
                },
                None => None,
            },
        }
    } else {
        None
    }
}

/// The frame, along the chain out of `fi`, in which `name` is bound:
/// the nearest enclosing binding, or `None` if no frame on the chain
/// binds the name.
pub open spec fn env_owner(frames: Seq<FrameV>, name: Seq<char>, fi: int) -> Option<int>
    recommends
        frames_wf(frames),
        0 <= fi < frames.len(),
    decreases fi + 1,
{
    if 0 <= fi < frames.len() {
        if frame_lookup(frames[fi].vars, name) is Some {
            Some(fi)
        } else {
            match frames[fi].parent {
                Some(p) => if 0 <= p < fi {
                    env_owner(frames, name, p)
                } else {
                    None
                },
                None => None,
            }
        }
    } else {
        None
    }
}

/// The frame arena after assignment: if `name` is bound anywhere on the
/// chain out of `fi`, it is overwritten in place in the frame where it was
/// found; otherwise it is defined fresh in frame `fi`.
pub open spec fn env_assign(
    frames: Seq<FrameV>,
    name: Seq<char>,
    value: ValueV,
    fi: int,
) -> Seq<FrameV>
    recommends
        frames_wf(frames),
        0 <= fi < frames.len(),
{
    let target = match env_owner(frames, name, fi) {
        Some(j) => j,
        None => fi,
    };
    frames.update(
        target,
        FrameV { vars: frame_store(frames[target].vars, name, value), parent: frames[target].parent },
    )
}

/// The frame arena after defining `name` directly in frame `fi`, without
/// searching the chain; parameter binding and `def` use this.
pub open spec fn env_define(
    frames: Seq<FrameV>,
    name: Seq<char>,
    value: ValueV,
    fi: int,
) -> Seq<FrameV>
    recommends
        0 <= fi < frames.len(),
{
    frames.update(
        fi,
        FrameV { vars: frame_store(frames[fi].vars, name, value), parent: frames[fi].parent },
    )
}

/// Whether frame `j` lies on the parent chain out of frame `fi`
/// (every frame lies on its own chain).
pub open spec fn on_chain(frames: Seq<FrameV>, fi: int, j: int) -> bool
    recommends
        frames_wf(frames),
        0 <= fi < frames.len(),
    decreases fi + 1,
{
    if !(0 <= fi < frames.len()) {
        false
    } else if fi == j {
        true
    } else {
        match frames[fi].parent {
            Some(p) => 0 <= p < fi && on_chain(frames, p, j),
            None => false,
        }
    }
}

/// Storing a value under a name makes that name look up to that value.
proof fn lemma_frame_store_lookup(vars: Seq<BindingV>, name: Seq<char>, value: ValueV)
    ensures
        frame_lookup(frame_store(vars, name, value), name) == Some(value),
    decreases vars.len(),
{
    if vars.len() != 0 && vars[0].name != name {
        lemma_frame_store_lookup(vars.drop_first(), name, value);
        assert((seq![vars[0]] + frame_store(vars.drop_first(), name, value)).drop_first()
            =~= frame_store(vars.drop_first(), name, value));
    }
}

/// Walking the chain out of `fi` after assignment into the owner frame `j`
/// finds the assigned value.
proof fn lemma_lookup_after_assign_at_owner(
    frames: Seq<FrameV>,
    name: Seq<char>,
    value: ValueV,
    fi: int,
    j: int,
)
    requires
        frames_wf(frames),
        0 <= fi < frames.len(),
        env_owner(frames, name, fi) == Some(j),
    ensures
        0 <= j < frames.len(),
        env_lookup(
            frames.update(
                j,
                FrameV {
                    vars: frame_store(frames[j].vars, name, value),
                    parent: frames[j].parent,
                },
            ),
            name,
            fi,
        ) == Some(value),
    decreases fi + 1,
{
    let updated = frames.update(
        j,
        FrameV { vars: frame_store(frames[j].vars, name, value), parent: frames[j].parent },
    );
    if frame_lookup(frames[fi].vars, name) is Some {
        assert(j == fi);
        lemma_frame_store_lookup(frames[j].vars, name, value);
    } else {
        let p = frames[fi].parent->0;
        lemma_lookup_after_assign_at_owner(frames, name, value, p, j);
        assert(j <= p) by {
            lemma_owner_on_chain(frames, name, p);
        }
        assert(updated[fi].vars == frames[fi].vars);
    }
}

/// The owner of a name lies on the chain, so its index never exceeds the
/// frame the search started from.
proof fn lemma_owner_on_chain(frames: Seq<FrameV>, name: Seq<char>, fi: int)
    requires
        frames_wf(frames),
        0 <= fi < frames.len(),
    ensures
        env_owner(frames, name, fi) matches Some(j) ==> 0 <= j <= fi && on_chain(frames, fi, j)
            && frame_lookup(frames[j].vars, name) is Some,
    decreases fi + 1,
{
    if frame_lookup(frames[fi].vars, name) is None {
        match frames[fi].parent {
            Some(p) => {
                lemma_owner_on_chain(frames, name, p);
            },
            None => {},
        }
    }
}

/// Assignment then lookup: after assigning `value` to `name` in frame `fi`,
/// looking `name` up from `fi` yields exactly that value.
pub proof fn lemma_assign_then_lookup(
    frames: Seq<FrameV>,
    name: Seq<char>,
    value: ValueV,
    fi: int,
)
    requires
        frames_wf(frames),
        0 <= fi < frames.len(),
    ensures
        env_lookup(env_assign(frames, name, value, fi), name, fi) == Some(value),
{
    match env_owner(frames, name, fi) {
        Some(j) => {
            lemma_owner_on_chain(frames, name, fi);
            lemma_lookup_after_assign_at_owner(frames, name, value, fi, j);
        },
        None => {
            lemma_frame_store_lookup(frames[fi].vars, name, value);
        },
    }
}

/// Scoping: a name bound in no frame but `c` is invisible from any frame
/// `g` whose chain does not pass through `c`.
pub proof fn lemma_child_binding_invisible(
    frames: Seq<FrameV>,
    name: Seq<char>,
    c: int,
    g: int,
)
    requires
        frames_wf(frames),
        0 <= c < frames.len(),
        0 <= g < frames.len(),
        !on_chain(frames, g, c),
        forall|k: int|
            0 <= k < frames.len() && k != c ==> #[trigger] frame_lookup(
                frames[k].vars,
                name,
            ) is None,
    ensures
        env_lookup(frames, name, g) is None,
    decreases g + 1,
{
    assert(g != c);
    match frames[g].parent {
        Some(p) => {
            lemma_child_binding_invisible(frames, name, c, p);
        },
        None => {},
    }
}

impl Frame {
    /// A fresh frame with no bindings.
    pub fn new(parent: Option<usize>) -> (f: Frame)
        ensures
            f@.vars == Seq::<BindingV>::empty(),
            f@.parent == match parent {
                Some(p) => Some(p as int),
                None => None::<int>,
            },
    {
        Frame { variables: Vec::new(), parent }
    }

    /// The position of the first binding of `name` in this frame, if any.
    fn position_of(&self, name: &String) -> (r: Option<usize>)
        ensures
            match r {
                Some(i) => {
                    &&& i < self@.vars.len()
                    &&& self@.vars[i as int].name == name@
                    &&& forall|j: int| 0 <= j < i ==> self@.vars[j].name != name@
                },
                None => forall|j: int|
                    0 <= j < self@.vars.len() ==> self@.vars[j].name != name@,
            },
    {
        let mut i: usize = 0;
        #[verifier::loop_isolation(false)]
        while i < self.variables.len()
            invariant
                i <= self.variables.len(),
                forall|j: int| 0 <= j < i ==> self@.vars[j].name != name@,
            decreases self.variables.len() - i,
        {
            if self.variables[i].name == *name {
                return Some(i);
            }
            i = i + 1;
        }
        None
    }
}

/// A frame with no binding of `name` yields `None` from `frame_lookup`, and
/// the other way round.
proof fn lemma_frame_lookup_none(vars: Seq<BindingV>, name: Seq<char>)
    requires
        frame_lookup(vars, name) is None,
    ensures
        forall|j: int| 0 <= j < vars.len() ==> vars[j].name != name,
    decreases vars.len(),
{
    if vars.len() > 0 {
        lemma_frame_lookup_none(vars.drop_first(), name);
        assert forall|j: int| 0 <= j < vars.len() implies vars[j].name != name by {
            if j > 0 {
                assert(vars.drop_first()[j - 1] == vars[j]);
            }
        }
    }
}

/// The first binding of `name`, if any, is what `frame_lookup` yields.
proof fn lemma_frame_lookup_at(vars: Seq<BindingV>, name: Seq<char>, i: int)
    requires
        0 <= i < vars.len(),
        vars[i].name == name,
        forall|j: int| 0 <= j < i ==> vars[j].name != name,
    ensures
        frame_lookup(vars, name) == Some(vars[i].value),
    decreases vars.len(),
{
    if i > 0 {
        lemma_frame_lookup_at(vars.drop_first(), name, i - 1);
    }
}

/// If no binding carries `name`, `frame_lookup` yields `None`.
proof fn lemma_frame_lookup_absent(vars: Seq<BindingV>, name: Seq<char>)
    requires
        forall|j: int| 0 <= j < vars.len() ==> vars[j].name != name,
    ensures
        frame_lookup(vars, name) is None,
    decreases vars.len(),
{
    if vars.len() > 0 {
        lemma_frame_lookup_absent(vars.drop_first(), name);
    }
}

/// Overwriting the first binding of `name` in place realizes `frame_store`.
proof fn lemma_frame_store_at(vars: Seq<BindingV>, name: Seq<char>, value: ValueV, i: int)
    requires
        0 <= i < vars.len(),
        vars[i].name == name,
        forall|j: int| 0 <= j < i ==> vars[j].name != name,
    ensures
        frame_store(vars, name, value) =~= vars.update(i, BindingV { name, value }),
    decreases vars.len(),
{
    if i > 0 {
        lemma_frame_store_at(vars.drop_first(), name, value, i - 1);
        assert(frame_store(vars, name, value) =~= seq![vars[0]] + frame_store(
            vars.drop_first(),
            name,
            value,
        ));
        assert(vars.update(i, BindingV { name, value }).drop_first() =~= vars.drop_first().update(
            i - 1,
            BindingV { name, value },
        ));
    }
}

/// Appending a binding of an absent `name` realizes `frame_store`.
proof fn lemma_frame_store_absent(vars: Seq<BindingV>, name: Seq<char>, value: ValueV)
    requires
        forall|j: int| 0 <= j < vars.len() ==> vars[j].name != name,
    ensures
        frame_store(vars, name, value) =~= vars.push(BindingV { name, value }),
    decreases vars.len(),
{
    if vars.len() > 0 {
        lemma_frame_store_absent(vars.drop_first(), name, value);
        assert(vars.push(BindingV { name, value }).drop_first() =~= vars.drop_first().push(
            BindingV { name, value },
        ));
    }
}

impl Environment {
    /// Well-formedness of the whole environment.
    pub open spec fn wf(&self) -> bool {
        frames_wf(self@.frames)
    }

    /// A fresh environment holding only the empty root frame.
    pub fn new() -> (env: Environment)
        ensures
            env.wf(),
            env@.frames.len() == 1,
            env@.frames[0].vars == Seq::<BindingV>::empty(),
            env@.frames[0].parent is None,
            env@.printed == Seq::<ValueV>::empty(),
    {
        let mut envs: Vec<Frame> = Vec::new();
        envs.push(Frame::new(None));
        let env = Environment { envs, printed: Vec::new() };
        proof {
            assert(env@.frames =~= seq![env@.frames[0]]);
        }
        env
    }

    /// Append a new empty frame whose parent is `parent`; its index is the
    /// old number of frames.
    pub fn allocate_new_frame(&mut self, parent: Option<usize>) -> (idx: usize)
        requires
            old(self).wf(),
            parent matches Some(p) ==> p < old(self)@.frames.len(),
        ensures
            final(self).wf(),
            idx == old(self)@.frames.len(),
            final(self)@.frames == old(self)@.frames.push(
                FrameV {
                    vars: Seq::<BindingV>::empty(),
                    parent: match parent {
                        Some(p) => Some(p as int),
                        None => None::<int>,
                    },
                },
            ),
            final(self)@.printed == old(self)@.printed,
    {
        let idx = self.envs.len();
        self.envs.push(Frame::new(parent));
        proof {
            assert(self@.frames =~= old(self)@.frames.push(self@.frames.last()));
        }
        idx
    }

    /// Search the frame `frame_index`, then its parents, for `name`; the
    /// first match is returned as a copy.
    pub fn lookup(&self, name: &String, frame_index: usize) -> (r: Option<Value>)
        requires
            self.wf(),
            frame_index < self@.frames.len(),
        ensures
            match r {
                Some(v) => env_lookup(self@.frames, name@, frame_index as int) == Some(v@),
                None => env_lookup(self@.frames, name@, frame_index as int) is None,
            },
    {
        let mut current: usize = frame_index;
        #[verifier::loop_isolation(false)]
        loop
            invariant
                current < self@.frames.len(),
                env_lookup(self@.frames, name@, frame_index as int) == env_lookup(
                    self@.frames,
                    name@,
                    current as int,
                ),
            decreases current,
        {
            let frame = &self.envs[current];
            match frame.position_of(name) {
                Some(i) => {
                    proof {
                        lemma_frame_lookup_at(self@.frames[current as int].vars, name@, i as int);
                    }
                    return Some(frame.variables[i].value.duplicate());
                },
                None => {
                    proof {
                        lemma_frame_lookup_absent(self@.frames[current as int].vars, name@);
                    }
                    match frame.parent {
                        Some(p) => {
                            current = p;
                        },
                        None => {
                            return None;
                        },
                    }
                },
            }
        }
    }

    /// Assign `value` to `name`: overwrite the nearest enclosing binding on
    /// the chain out of `frame_index`, or define it fresh in that frame.
    pub fn assign(&mut self, name: &String, value: Value, frame_index: usize)
        requires
            old(self).wf(),
            frame_index < old(self)@.frames.len(),
        ensures
            final(self).wf(),
            final(self)@.frames == env_assign(old(self)@.frames, name@, value@, frame_index as int),
            final(self)@.frames.len() == old(self)@.frames.len(),
            final(self)@.printed == old(self)@.printed,
    {
        let mut current: usize = frame_index;
        #[verifier::loop_isolation(false)]
        loop
            invariant
                *self == *old(self),
                current < self@.frames.len(),
                env_owner(self@.frames, name@, frame_index as int) == env_owner(
                    self@.frames,
                    name@,
                    current as int,
                ),
            decreases current,
        {
            match self.envs[current].position_of(name) {
                Some(i) => {
                    proof {
                        lemma_frame_lookup_at(self@.frames[current as int].vars, name@, i as int);
                        lemma_frame_store_at(
                            self@.frames[current as int].vars,
                            name@,
                            value@,
                            i as int,
                        );
                    }
                    let new_name = name.clone();
                    self.envs[current].variables[i] = Binding { name: new_name, value };
                    proof {
                        assert(self@.frames =~~= env_assign(
                            old(self)@.frames,
                            name@,
                            value@,
                            frame_index as int,
                        ));
                    }
                    return ;
                },
                None => {
                    proof {
                        lemma_frame_lookup_absent(self@.frames[current as int].vars, name@);
                    }
                    let has_parent = self.envs[current].parent;
                    match has_parent {
                        Some(p) => {
                            current = p;
                        },
                        None => {
                            // No frame on the chain binds the name:
                            // define it fresh in `frame_index`.
                            proof {
                                assert(env_owner(self@.frames, name@, current as int) is None);
                                assert(frame_lookup(
                                    self@.frames[frame_index as int].vars,
                                    name@,
                                ) is None);
                                lemma_frame_lookup_none(
                                    self@.frames[frame_index as int].vars,
                                    name@,
                                );
                                lemma_frame_store_absent(
                                    self@.frames[frame_index as int].vars,
                                    name@,
                                    value@,
                                );
                            }
                            let new_name = name.clone();
                            self.envs[frame_index].variables.push(
                                Binding { name: new_name, value },
                            );
                            proof {
                                assert(self@.frames =~~= env_assign(
                                    old(self)@.frames,
                                    name@,
                                    value@,
                                    frame_index as int,
                                ));
                            }
                            return ;
                        },
                    }
                },
            }
        }
    }

    /// Define `name` directly in frame `frame_index`, without searching the
    /// chain; parameter binding and `def` use this.
    pub fn define(&mut self, name: &String, value: Value, frame_index: usize)
        requires
            old(self).wf(),
            frame_index < old(self)@.frames.len(),
        ensures
            final(self).wf(),
            final(self)@.frames == env_define(old(self)@.frames, name@, value@, frame_index as int),
            final(self)@.frames.len() == old(self)@.frames.len(),
            final(self)@.printed == old(self)@.printed,
    {
        match self.envs[frame_index].position_of(name) {
            Some(i) => {
                proof {
                    lemma_frame_store_at(
                        self@.frames[frame_index as int].vars,
                        name@,
                        value@,
                        i as int,
                    );
                }
                let new_name = name.clone();
                self.envs[frame_index].variables[i] = Binding { name: new_name, value };
            },
            None => {
                proof {
                    lemma_frame_store_absent(self@.frames[frame_index as int].vars, name@, value@);
                }
                let new_name = name.clone();
                self.envs[frame_index].variables.push(Binding { name: new_name, value });
            },
        }
        proof {
            assert(self@.frames =~~= env_define(
                old(self)@.frames,
                name@,
                value@,
                frame_index as int,
            ));
        }
    }

    /// Record a value printed by the `print` statement.
    pub fn print_value(&mut self, value: Value)
        ensures
            final(self)@.frames == old(self)@.frames,
            final(self)@.printed == old(self)@.printed.push(value@),
            final(self).wf() == old(self).wf(),
    {
        self.printed.push(value);
        proof {
            assert(self@.frames =~= old(self)@.frames);
            assert(self@.printed =~= old(self)@.printed.push(self@.printed.last()));
        }
    }
}

} // verus!
