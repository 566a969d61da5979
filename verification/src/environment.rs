//! The environment chain: a store of scope frames, each a list of bindings
//! plus a link to its enclosing frame. Frames are referred to by index, so
//! closures can keep a frame alive after the call that created it returns.
use crate::interpreter::RuntimeError;
use crate::model::{token_model, value_model, GVal};
use crate::token::{duplicate_value, LiteralType, Token};
use vstd::prelude::*;
use vstd::pervasive::VecAdditionalExecFns;
use vstd::string::StringExecFns;

verus! {

/// One binding of a frame: a name and its (possibly nil) value.
pub struct Binding {
    pub name: String,
    pub value: Option<LiteralType>,
}

/// One scope frame.
pub struct Frame {
    pub enclosing: Option<usize>,
    pub bindings: Vec<Binding>,
}

/// The store of frames; index 0 is the global frame.
pub struct Environment {
    pub frames: Vec<Frame>,
}

/// Model of a binding.
pub ghost struct GBind {
    pub name: Seq<char>,
    pub value: Option<GVal>,
}

/// Model of a frame.
pub ghost struct GFrame {
    pub enclosing: Option<int>,
    pub binds: Seq<GBind>,
}

/// Model of a binding.
pub open spec fn bind_model(b: Binding) -> GBind {
    GBind { name: b.name@, value: value_model(b.value) }
}

/// Models of a binding list.
pub open spec fn binds_model(bs: Seq<Binding>) -> Seq<GBind>
    decreases bs,
{
    if bs.len() == 0 {
        Seq::empty()
    } else {
        binds_model(bs.drop_last()).push(bind_model(bs.last()))
    }
}

/// Model of a frame.
pub open spec fn frame_model(f: Frame) -> GFrame {
    GFrame {
        enclosing: match f.enclosing {
            Some(p) => Some(p as int),
            None => None,
        },
        binds: binds_model(f.bindings@),
    }
}

/// Models of a frame list.
pub open spec fn frames_model(fs: Seq<Frame>) -> Seq<GFrame>
    decreases fs,
{
    if fs.len() == 0 {
        Seq::empty()
    } else {
        frames_model(fs.drop_last()).push(frame_model(fs.last()))
    }
}

/// Model of the whole store.
pub open spec fn env_model(e: Environment) -> Seq<GFrame> {
    frames_model(e.frames@)
}

/// Every frame's enclosing link points at an earlier frame, so the chain
/// of links can form no cycle.
pub open spec fn parents_wf(frames: Seq<GFrame>) -> bool {
    forall|i: int|
        0 <= i < frames.len() ==> ((#[trigger] frames[i].enclosing) matches Some(p) ==> 0 <= p < i)
}

/// The value a name is bound to in a binding list: the first binding wins.
pub open spec fn lookup_bind(bs: Seq<GBind>, name: Seq<char>) -> Option<Option<GVal>>
    decreases bs.len(),
{
    if bs.len() == 0 {
        None
    } else if bs[0].name == name {
        Some(bs[0].value)
    } else {
        lookup_bind(bs.drop_first(), name)
    }
}

/// A binding list after `define`: the first binding of the name is
/// overwritten, or a new binding is appended.
pub open spec fn define_bind(bs: Seq<GBind>, name: Seq<char>, v: Option<GVal>) -> Seq<GBind>
    decreases bs.len(),
{
    if bs.len() == 0 {
        seq![GBind { name, value: v }]
    } else if bs[0].name == name {
        seq![GBind { name, value: v }] + bs.drop_first()
    } else {
        seq![bs[0]] + define_bind(bs.drop_first(), name, v)
    }
}

/// The value a name is bound to, walking the chain from frame `f` outward.
pub open spec fn chain_lookup(frames: Seq<GFrame>, f: int, name: Seq<char>) -> Option<Option<GVal>>
    decreases f,
        when parents_wf(frames) && 0 <= f < frames.len()
{
    match lookup_bind(frames[f].binds, name) {
        Some(v) => Some(v),
        None => match frames[f].enclosing {
            Some(p) => chain_lookup(frames, p, name),
            None => None,
        },
    }
}

/// The store after assigning to a name, walking the chain from frame `f`
/// outward: the nearest frame with the name is changed; if no frame binds
/// the name, the result is `None` (an error, and no frame changes).
pub open spec fn chain_assign(
    frames: Seq<GFrame>,
    f: int,
    name: Seq<char>,
    v: Option<GVal>,
) -> Option<Seq<GFrame>>
    decreases f,
        when parents_wf(frames) && 0 <= f < frames.len()
{
    if lookup_bind(frames[f].binds, name) is Some {
        Some(
            frames.update(
                f,
                GFrame { enclosing: frames[f].enclosing, binds: define_bind(frames[f].binds, name, v) },
            ),
        )
    } else {
        match frames[f].enclosing {
            Some(p) => chain_assign(frames, p, name, v),
            None => None,
        }
    }
}

/// The message of the failure reported when a name is not bound.
pub open spec fn spec_undefined_variable(name: Seq<char>) -> Seq<char> {
    "Undefined variable '"@ + name + "'."@
}

/// Looking a name up right after defining it gives the defined value.
pub proof fn lemma_lookup_define(bs: Seq<GBind>, name: Seq<char>, v: Option<GVal>)
    ensures
        lookup_bind(define_bind(bs, name, v), name) == Some(v),
    decreases bs.len(),
{
    if bs.len() == 0 {
        assert(define_bind(bs, name, v) == seq![GBind { name, value: v }]);
    } else if bs[0].name == name {
        assert(define_bind(bs, name, v)[0] == GBind { name, value: v });
    } else {
        lemma_lookup_define(bs.drop_first(), name, v);
        let d = define_bind(bs, name, v);
        assert(d[0] == bs[0]);
        assert(d.drop_first() =~= define_bind(bs.drop_first(), name, v));
    }
}

/// The index of the first binding of a name, or -1.
pub open spec fn bind_index(bs: Seq<GBind>, name: Seq<char>) -> int
    decreases bs.len(),
{
    if bs.len() == 0 {
        -1
    } else if bs[0].name == name {
        0
    } else {
        let r = bind_index(bs.drop_first(), name);
        if r == -1 {
            -1
        } else {
            r + 1
        }
    }
}

/// How `bind_index`, `lookup_bind` and `define_bind` read in terms of
/// indices: the index is the first match, lookup reads it, define
/// overwrites it or appends.
pub proof fn lemma_bind_index(bs: Seq<GBind>, name: Seq<char>, v: Option<GVal>)
    ensures
        bind_index(bs, name) == -1 ==> (forall|j: int|
            0 <= j < bs.len() ==> (#[trigger] bs[j]).name != name),
        bind_index(bs, name) == -1 ==> lookup_bind(bs, name) is None && define_bind(bs, name, v)
            =~= bs.push(GBind { name, value: v }),
        bind_index(bs, name) != -1 ==> {
            let i = bind_index(bs, name);
            &&& 0 <= i < bs.len()
            &&& bs[i].name == name
            &&& (forall|j: int| 0 <= j < i ==> (#[trigger] bs[j]).name != name)
            &&& lookup_bind(bs, name) == Some(bs[i].value)
            &&& define_bind(bs, name, v) =~= bs.update(i, GBind { name, value: v })
        },
    decreases bs.len(),
{
    if bs.len() == 0 {
    } else if bs[0].name == name {
        assert(define_bind(bs, name, v) =~= bs.update(0, GBind { name, value: v }));
    } else {
        lemma_bind_index(bs.drop_first(), name, v);
        let r = bind_index(bs.drop_first(), name);
        if r == -1 {
            assert forall|j: int| 0 <= j < bs.len() implies (#[trigger] bs[j]).name != name by {
                if j > 0 {
                    assert(bs.drop_first()[j - 1] == bs[j]);
                }
            }
            assert(define_bind(bs, name, v) =~= bs.push(GBind { name, value: v }));
        } else {
            assert forall|j: int| 0 <= j < r + 1 implies (#[trigger] bs[j]).name != name by {
                if j > 0 {
                    assert(bs.drop_first()[j - 1] == bs[j]);
                }
            }
            assert(bs[r + 1] == bs.drop_first()[r]);
            assert(define_bind(bs, name, v) =~= bs.update(r + 1, GBind { name, value: v }));
        }
    }
}

/// Binding-list models have the length of the lists they model.
pub proof fn lemma_binds_model_len(bs: Seq<Binding>)
    ensures
        binds_model(bs).len() == bs.len(),
    decreases bs,
{
    if bs.len() > 0 {
        lemma_binds_model_len(bs.drop_last());
    }
}

/// Each element of a binding-list model is the model of the element.
pub proof fn lemma_binds_model_index(bs: Seq<Binding>, i: int)
    requires
        0 <= i < bs.len(),
    ensures
        binds_model(bs)[i] == bind_model(bs[i]),
    decreases bs,
{
    lemma_binds_model_len(bs);
    if bs.len() > 0 {
        lemma_binds_model_len(bs.drop_last());
        if i < bs.len() - 1 {
            lemma_binds_model_index(bs.drop_last(), i);
        }
    }
}

/// A pushed binding extends the model.
pub proof fn lemma_binds_model_push(bs: Seq<Binding>, b: Binding)
    ensures
        binds_model(bs.push(b)) == binds_model(bs).push(bind_model(b)),
{
    assert(bs.push(b).drop_last() =~= bs);
}

/// An updated binding updates the model.
pub proof fn lemma_binds_model_update(bs: Seq<Binding>, i: int, b: Binding)
    requires
        0 <= i < bs.len(),
    ensures
        binds_model(bs.update(i, b)) == binds_model(bs).update(i, bind_model(b)),
    decreases bs,
{
    lemma_binds_model_len(bs);
    lemma_binds_model_len(bs.update(i, b));
    assert forall|j: int| 0 <= j < bs.len() implies #[trigger] binds_model(bs.update(i, b))[j]
        == binds_model(bs).update(i, bind_model(b))[j] by {
        lemma_binds_model_index(bs.update(i, b), j);
        lemma_binds_model_index(bs, j);
    }
    assert(binds_model(bs.update(i, b)) =~= binds_model(bs).update(i, bind_model(b)));
}

/// Frame-list models have the length of the lists they model.
pub proof fn lemma_frames_model_len(fs: Seq<Frame>)
    ensures
        frames_model(fs).len() == fs.len(),
    decreases fs,
{
    if fs.len() > 0 {
        lemma_frames_model_len(fs.drop_last());
    }
}

/// Each element of a frame-list model is the model of the element.
pub proof fn lemma_frames_model_index(fs: Seq<Frame>, i: int)
    requires
        0 <= i < fs.len(),
    ensures
        frames_model(fs)[i] == frame_model(fs[i]),
    decreases fs,
{
    lemma_frames_model_len(fs);
    if fs.len() > 0 {
        lemma_frames_model_len(fs.drop_last());
        if i < fs.len() - 1 {
            lemma_frames_model_index(fs.drop_last(), i);
        }
    }
}

/// A pushed frame extends the model.
pub proof fn lemma_frames_model_push(fs: Seq<Frame>, f: Frame)
    ensures
        frames_model(fs.push(f)) == frames_model(fs).push(frame_model(f)),
{
    assert(fs.push(f).drop_last() =~= fs);
}

/// An updated frame updates the model.
pub proof fn lemma_frames_model_update(fs: Seq<Frame>, i: int, f: Frame)
    requires
        0 <= i < fs.len(),
    ensures
        frames_model(fs.update(i, f)) == frames_model(fs).update(i, frame_model(f)),
{
    lemma_frames_model_len(fs);
    lemma_frames_model_len(fs.update(i, f));
    assert forall|j: int| 0 <= j < fs.len() implies #[trigger] frames_model(fs.update(i, f))[j]
        == frames_model(fs).update(i, frame_model(f))[j] by {
        lemma_frames_model_index(fs.update(i, f), j);
        lemma_frames_model_index(fs, j);
    }
    assert(frames_model(fs.update(i, f)) =~= frames_model(fs).update(i, frame_model(f)));
}

/// The index of the first binding of `name`, if any.
fn find_bind(bindings: &Vec<Binding>, name: &String) -> (r: Option<usize>)
    ensures
        (r matches Some(i) && i as int == bind_index(binds_model(bindings@), name@) && i
            < bindings@.len()) || (r is None && bind_index(binds_model(bindings@), name@) == -1),
{
    let ghost gname = name@;
    let ghost obs = bindings@;
    proof {
        lemma_binds_model_len(obs);
        lemma_bind_index(binds_model(obs), gname, None);
    }
    let n = bindings.len();
    let mut i: usize = 0;
    while i < n
        invariant
            n == bindings.len(),
            obs == bindings@,
            binds_model(obs).len() == n,
            gname == name@,
            0 <= i <= n,
            forall|j: int| 0 <= j < i ==> (#[trigger] binds_model(obs)[j]).name != gname,
        decreases n - i,
    {
        proof {
            lemma_binds_model_index(obs, i as int);
            lemma_bind_index(binds_model(obs), gname, None);
        }
        if bindings[i].name == *name {
            proof {
                assert(binds_model(obs)[i as int].name == gname);
                if bind_index(binds_model(obs), gname) == -1 {
                    assert(false);
                }
            }
            return Some(i);
        }
        i += 1;
    }
    proof {
        lemma_bind_index(binds_model(obs), gname, None);
        if bind_index(binds_model(obs), gname) != -1 {
            assert(false);
        }
    }
    None
}

impl Frame {
    /// Set (or overwrite) the binding of `name` in this frame.
    pub fn define(&mut self, name: String, value: Option<LiteralType>)
        ensures
            frame_model(*final(self)) == (GFrame {
                enclosing: frame_model(*old(self)).enclosing,
                binds: define_bind(frame_model(*old(self)).binds, name@, value_model(value)),
            }),
    {
        let ghost gv = value_model(value);
        let ghost gname = name@;
        let ghost obs = self.bindings@;
        proof {
            lemma_binds_model_len(obs);
            lemma_bind_index(binds_model(obs), gname, gv);
        }
        match find_bind(&self.bindings, &name) {
            Some(k) => {
                let b = Binding { name, value };
                let ghost gb = b;
                self.bindings.set(k, b);
                proof {
                    lemma_binds_model_update(obs, k as int, gb);
                    assert(frame_model(*self).binds =~= define_bind(binds_model(obs), gname, gv));
                }
            },
            None => {
                let b = Binding { name, value };
                let ghost gb = b;
                self.bindings.push(b);
                proof {
                    lemma_binds_model_push(obs, gb);
                    assert(frame_model(*self).binds =~= define_bind(binds_model(obs), gname, gv));
                }
            },
        }
    }

    /// The value bound to `name` in this frame alone, duplicated.
    pub fn get_here(&self, name: &String) -> (r: Option<Option<LiteralType>>)
        ensures
            match lookup_bind(frame_model(*self).binds, name@) {
                Some(v) => r matches Some(out) && value_model(out) == v,
                None => r is None,
            },
    {
        proof {
            lemma_binds_model_len(self.bindings@);
            lemma_bind_index(binds_model(self.bindings@), name@, None);
        }
        match find_bind(&self.bindings, name) {
            Some(k) => {
                proof {
                    lemma_binds_model_index(self.bindings@, k as int);
                }
                Some(duplicate_value(&self.bindings[k].value))
            },
            None => None,
        }
    }
}

impl Environment {
    /// A store holding only the empty global frame.
    pub fn new() -> (r: Environment)
        ensures
            env_model(r) =~= seq![GFrame { enclosing: None, binds: Seq::empty() }],
            parents_wf(env_model(r)),
    {
        let mut frames: Vec<Frame> = Vec::new();
        let f = Frame { enclosing: None, bindings: Vec::new() };
        let ghost gf = f;
        frames.push(f);
        proof {
            lemma_frames_model_push(Seq::empty(), gf);
            assert(frames@.drop_last() =~= Seq::<Frame>::empty());
        }
        Environment { frames }
    }

    /// How many frames the store holds.
    pub fn len(&self) -> (r: usize)
        ensures
            r == env_model(*self).len(),
    {
        proof {
            lemma_frames_model_len(self.frames@);
        }
        self.frames.len()
    }

    /// A fresh, empty frame enclosed by `enclosing`; its index is returned.
    pub fn push_frame(&mut self, enclosing: usize) -> (r: usize)
        requires
            enclosing < env_model(*old(self)).len(),
        ensures
            env_model(*final(self)) == env_model(*old(self)).push(
                GFrame { enclosing: Some(enclosing as int), binds: Seq::empty() },
            ),
            r == env_model(*old(self)).len(),
            parents_wf(env_model(*old(self))) ==> parents_wf(env_model(*final(self))),
    {
        proof {
            lemma_frames_model_len(self.frames@);
        }
        let r = self.frames.len();
        let ghost ofs = self.frames@;
        let f = Frame { enclosing: Some(enclosing), bindings: Vec::new() };
        self.frames.push(f);
        proof {
            lemma_frames_model_push(ofs, f);
            let m = env_model(*self);
            let om = frames_model(ofs);
            assert(frame_model(f) == GFrame {
                enclosing: Some(enclosing as int),
                binds: Seq::<GBind>::empty(),
            });
            if parents_wf(om) {
                assert forall|i: int|
                    0 <= i < m.len() implies ((#[trigger] m[i].enclosing) matches Some(p) ==> 0 <= p
                    < i) by {
                    if i < om.len() {
                        assert(m[i] == om[i]);
                    }
                }
            }
        }
        r
    }

    /// `define` in the frame `frame`: set or overwrite a binding there.
    pub fn define(&mut self, frame: usize, name: String, value: Option<LiteralType>)
        requires
            frame < env_model(*old(self)).len(),
        ensures
            env_model(*final(self)) == env_model(*old(self)).update(
                frame as int,
                GFrame {
                    enclosing: env_model(*old(self))[frame as int].enclosing,
                    binds: define_bind(
                        env_model(*old(self))[frame as int].binds,
                        name@,
                        value_model(value),
                    ),
                },
            ),
            env_model(*final(self)).len() == env_model(*old(self)).len(),
            parents_wf(env_model(*old(self))) ==> parents_wf(env_model(*final(self))),
    {
        proof {
            lemma_frames_model_len(self.frames@);
            lemma_frames_model_index(self.frames@, frame as int);
        }
        let ghost ofs = self.frames@;
        let fr = &mut self.frames[frame];
        fr.define(name, value);
        proof {
            lemma_frames_model_update(ofs, frame as int, self.frames@[frame as int]);
            assert(self.frames@ =~= ofs.update(frame as int, self.frames@[frame as int]));
            let om = frames_model(ofs);
            let m = env_model(*self);
            assert(m == om.update(
                frame as int,
                GFrame {
                    enclosing: om[frame as int].enclosing,
                    binds: define_bind(om[frame as int].binds, name@, value_model(value)),
                },
            ));
            if parents_wf(om) {
                assert forall|i: int|
                    0 <= i < m.len() implies ((#[trigger] m[i].enclosing) matches Some(p) ==> 0 <= p
                    < i) by {
                    if i != frame as int {
                        assert(m[i] == om[i]);
                    } else {
                        assert(m[i].enclosing == om[i].enclosing);
                    }
                }
            }
        }
    }

    /// `get` at a token naming a variable: the nearest binding's value, or
    /// the undefined-variable error.
    pub fn get(&self, frame: usize, name: &Token) -> (r: Result<Option<LiteralType>, RuntimeError>)
        requires
            frame < env_model(*self).len(),
            parents_wf(env_model(*self)),
        ensures
            match chain_lookup(env_model(*self), frame as int, name.lexeme@) {
                Some(v) => r matches Ok(out) && value_model(out) == v,
                None => r matches Err(e) && token_model(e.token) == token_model(*name)
                    && e.message@ == spec_undefined_variable(name.lexeme@),
            },
    {
        let ghost m = env_model(*self);
        let mut f = frame;
        loop
            invariant
                f < m.len(),
                parents_wf(m),
                m == env_model(*self),
                chain_lookup(m, frame as int, name.lexeme@) == chain_lookup(m, f as int, name.lexeme@),
            decreases f,
        {
            proof {
                lemma_frames_model_len(self.frames@);
                lemma_frames_model_index(self.frames@, f as int);
            }
            match self.frames[f].get_here(&name.lexeme) {
                Some(v) => {
                    return Ok(v);
                },
                None => {
                    let fr = &self.frames[f];
                    match fr.enclosing {
                        Some(p) => {
                            f = p;
                        },
                        None => {
                            let mut msg = String::from_str("Undefined variable '");
                            msg.append(name.lexeme.as_str());
                            msg.append("'.");
                            proof {
                                assert(msg@ =~= spec_undefined_variable(name.lexeme@));
                            }
                            return Err(
                                RuntimeError { token: name.duplicate(), message: msg },
                            );
                        },
                    }
                },
            }
        }
    }

    /// `assign` at a token naming a variable: overwrite the nearest
    /// binding, never creating one; without a binding anywhere in the
    /// chain, the undefined-variable error, and no frame changes.
    pub fn assign(&mut self, frame: usize, name: &Token, value: Option<LiteralType>) -> (r: Result<
        (),
        RuntimeError,
    >)
        requires
            frame < env_model(*old(self)).len(),
            parents_wf(env_model(*old(self))),
        ensures
            match chain_assign(env_model(*old(self)), frame as int, name.lexeme@, value_model(value)) {
                Some(m2) => r is Ok && env_model(*final(self)) == m2,
                None => r matches Err(e) && env_model(*final(self)) == env_model(*old(self))
                    && token_model(e.token) == token_model(*name) && e.message@
                    == spec_undefined_variable(name.lexeme@),
            },
            env_model(*final(self)).len() == env_model(*old(self)).len(),
            parents_wf(env_model(*final(self))),
    {
        let ghost m = env_model(*old(self));
        let mut f = frame;
        loop
            invariant
                f < m.len(),
                parents_wf(m),
                m == env_model(*self),
                *self == *old(self),
                chain_assign(m, frame as int, name.lexeme@, value_model(value)) == chain_assign(
                    m,
                    f as int,
                    name.lexeme@,
                    value_model(value),
                ),
            decreases f,
        {
            proof {
                lemma_frames_model_len(self.frames@);
                lemma_frames_model_index(self.frames@, f as int);
            }
            let found = {
                let fr = &self.frames[f];
                match fr.get_here(&name.lexeme) {
                    Some(_) => true,
                    None => false,
                }
            };
            if found {
                proof {
                    lemma_frames_model_index(self.frames@, f as int);
                }
                let ghost ofs = self.frames@;
                let fr = &mut self.frames[f];
                fr.define(name.lexeme.clone(), value);
                proof {
                    lemma_frames_model_update(ofs, f as int, self.frames@[f as int]);
                    assert(self.frames@ =~= ofs.update(f as int, self.frames@[f as int]));
                    let m2 = env_model(*self);
                    assert(m2 == m.update(
                        f as int,
                        GFrame {
                            enclosing: m[f as int].enclosing,
                            binds: define_bind(m[f as int].binds, name.lexeme@, value_model(value)),
                        },
                    ));
                    assert forall|i: int|
                        0 <= i < m2.len() implies ((#[trigger] m2[i].enclosing) matches Some(p)
                        ==> 0 <= p < i) by {
                        if i != f as int {
                            assert(m2[i] == m[i]);
                        } else {
                            assert(m2[i].enclosing == m[i].enclosing);
                        }
                    }
                }
                return Ok(());
            } else {
                let fr = &self.frames[f];
                match fr.enclosing {
                    Some(p) => {
                        f = p;
                    },
                    None => {
                        let mut msg = String::from_str("Undefined variable '");
                        msg.append(name.lexeme.as_str());
                        msg.append("'.");
                        proof {
                            assert(msg@ =~= spec_undefined_variable(name.lexeme@));
                        }
                        return Err(RuntimeError { token: name.duplicate(), message: msg });
                    },
                }
            }
        }
    }
}

/// `define(x, v)` then `get(x)` in the same frame gives `v` back.
///
/// Law: a definition is immediately visible in its own frame.
pub proof fn lemma_define_get(frames: Seq<GFrame>, f: int, name: Seq<char>, v: Option<GVal>)
    requires
        parents_wf(frames),
        0 <= f < frames.len(),
    ensures
        ({
            let defined = frames.update(
                f,
                GFrame {
                    enclosing: frames[f].enclosing,
                    binds: define_bind(frames[f].binds, name, v),
                },
            );
            chain_lookup(defined, f, name) == Some(v)
        }),
{
    let defined = frames.update(
        f,
        GFrame { enclosing: frames[f].enclosing, binds: define_bind(frames[f].binds, name, v) },
    );
    assert(parents_wf(defined)) by {
        assert forall|i: int|
            0 <= i < defined.len() implies ((#[trigger] defined[i].enclosing) matches Some(p) ==> 0
            <= p < i) by {
            if i != f {
                assert(defined[i] == frames[i]);
            } else {
                assert(defined[i].enclosing == frames[i].enclosing);
            }
        }
    }
    lemma_lookup_define(frames[f].binds, name, v);
}

/// `define(x, v1); define(x, v2); get(x)` gives `v2`: redefinition
/// overwrites.
///
/// Law: the later of two definitions of one name wins.
pub proof fn lemma_redefine_get(
    frames: Seq<GFrame>,
    f: int,
    name: Seq<char>,
    v1: Option<GVal>,
    v2: Option<GVal>,
)
    requires
        parents_wf(frames),
        0 <= f < frames.len(),
    ensures
        ({
            let once = frames.update(
                f,
                GFrame {
                    enclosing: frames[f].enclosing,
                    binds: define_bind(frames[f].binds, name, v1),
                },
            );
            let twice = once.update(
                f,
                GFrame {
                    enclosing: once[f].enclosing,
                    binds: define_bind(once[f].binds, name, v2),
                },
            );
            chain_lookup(twice, f, name) == Some(v2)
        }),
{
    let once = frames.update(
        f,
        GFrame { enclosing: frames[f].enclosing, binds: define_bind(frames[f].binds, name, v1) },
    );
    assert(parents_wf(once)) by {
        assert forall|i: int|
            0 <= i < once.len() implies ((#[trigger] once[i].enclosing) matches Some(p) ==> 0 <= p
            < i) by {
            if i != f {
                assert(once[i] == frames[i]);
            } else {
                assert(once[i].enclosing == frames[i].enclosing);
            }
        }
    }
    lemma_define_get(once, f, name, v2);
}

/// `assign(x, v)` with no binding of `x` anywhere in the chain fails, and
/// `chain_assign` then offers no changed store: the failing `assign` above
/// is proved to leave the store exactly as it was.
///
/// Law: assignment never creates a binding.
pub proof fn lemma_assign_missing(frames: Seq<GFrame>, f: int, name: Seq<char>, v: Option<GVal>)
    requires
        parents_wf(frames),
        0 <= f < frames.len(),
        chain_lookup(frames, f, name) is None,
    ensures
        chain_assign(frames, f, name, v) is None,
    decreases f,
{
    if lookup_bind(frames[f].binds, name) is Some {
    } else {
        match frames[f].enclosing {
            Some(p) => {
                lemma_assign_missing(frames, p, name, v);
            },
            None => {},
        }
    }
}

} // verus!
