//! Environments: an arena of frames, each a list of bindings with a parent.
use vstd::prelude::*;

use crate::errors::{Error, EvalError};
use crate::text::string_from;
use crate::value::{Ans, Number, NumLog, Prim, Val, Value, clone_value};

verus! {

/// A frame of bindings.
pub struct Frame<N> {
    pub vars: Vec<(String, Value<N>)>,
    pub parent: Option<usize>,
}

/// The model of a frame.
pub struct FrameV<N> {
    pub vars: Seq<(Seq<char>, Val<N>)>,
    pub parent: Option<nat>,
}

/// The model of an environment.
pub struct EnvV<N> {
    /// The frames; frame 0 is the global frame.
    pub frames: Seq<FrameV<N>>,
    /// The built-in procedures, by name; they are seen after every frame.
    pub builtins: Seq<(Seq<char>, Prim)>,
    /// The evaluation steps left.
    pub fuel: nat,
    /// How many answers the number domain has given.
    pub count: nat,
    /// The lines printed so far.
    pub output: Seq<Seq<char>>,
    /// The bytes of input not read yet.
    pub input: Seq<u8>,
    /// Whether the input has ended: no byte follows those in `input`.
    pub input_closed: bool,
    /// The contents of the files that `require` can run, by name.
    pub sources: Seq<(Seq<char>, Seq<char>)>,
}

/// An environment: the frames of all scopes ever created, the built-in
/// procedures, the evaluation budget, the answers of the number domain, the
/// program's input and output, and the files that `require` can run.
pub struct Env<N> {
    pub frames: Vec<Frame<N>>,
    pub builtins: Vec<(String, Prim)>,
    pub fuel: u64,
    pub log: NumLog<N>,
    pub output: Vec<String>,
    pub input: Vec<u8>,
    pub input_closed: bool,
    pub sources: Vec<(String, String)>,
}

impl<N: Number> Clone for Frame<N> {
    fn clone(&self) -> (r: Self) {
        Frame { vars: self.vars.clone(), parent: self.parent }
    }
}

impl<N: Number> Clone for Env<N> {
    /// A copy of the environment, to return to if a run has to be made again
    /// with more input or another file.
    fn clone(&self) -> (r: Self) {
        Env {
            frames: self.frames.clone(),
            builtins: self.builtins.clone(),
            fuel: self.fuel,
            log: self.log.clone(),
            output: self.output.clone(),
            input: self.input.clone(),
            input_closed: self.input_closed,
            sources: self.sources.clone(),
        }
    }
}

/// The model of a binding.
pub open spec fn binding_view<N>(b: (String, Value<N>)) -> (Seq<char>, Val<N>) {
    (b.0@, b.1@)
}

/// The model of a frame.
pub open spec fn frame_view<N>(f: Frame<N>) -> FrameV<N> {
    FrameV {
        vars: f.vars@.map_values(|b: (String, Value<N>)| binding_view(b)),
        parent: match f.parent {
            Some(p) => Some(p as nat),
            None => None,
        },
    }
}

impl<N> View for Env<N> {
    type V = EnvV<N>;

    open spec fn view(&self) -> EnvV<N> {
        EnvV {
            frames: self.frames@.map_values(|f: Frame<N>| frame_view(f)),
            builtins: self.builtins@.map_values(|b: (String, Prim)| (b.0@, b.1)),
            fuel: self.fuel as nat,
            count: self.log.entries().len(),
            output: self.output@.map_values(|s: String| s@),
            input: self.input@,
            input_closed: self.input_closed,
            sources: self.sources@.map_values(|p: (String, String)| (p.0@, p.1@)),
        }
    }
}

impl<N> Env<N> {
    /// The answers that the number domain gave to this environment's evaluations.
    pub open spec fn answers(&self) -> Seq<Ans<N>> {
        self.log.entries()
    }
}

/// Whether the answer log `l` continues the answers of `env`.
pub open spec fn extends<N>(env: Env<N>, l: Seq<Ans<N>>) -> bool {
    env.answers().is_prefix_of(l)
}

/// The first index at or after `i` of a binding of `name`.
pub open spec fn find_from<N>(vars: Seq<(Seq<char>, Val<N>)>, name: Seq<char>, i: nat) -> Option<nat>
    decreases vars.len() - i,
{
    if i >= vars.len() {
        None
    } else if vars[i as int].0 == name {
        Some(i)
    } else {
        find_from(vars, name, i + 1)
    }
}

/// The index of the binding of `name`.
pub open spec fn find_var<N>(vars: Seq<(Seq<char>, Val<N>)>, name: Seq<char>) -> Option<nat> {
    find_from(vars, name, 0)
}

/// The frame, at or above frame `f`, that binds `name`.
pub open spec fn owner<N>(ev: EnvV<N>, f: nat, name: Seq<char>) -> Option<nat>
    decreases f,
{
    if f < ev.frames.len() {
        match find_var(ev.frames[f as int].vars, name) {
            Some(_) => Some(f),
            None => match ev.frames[f as int].parent {
                Some(p) => if p < f {
                    owner(ev, p, name)
                } else {
                    None
                },
                None => None,
            },
        }
    } else {
        None
    }
}

/// The value bound to `name` in frame `g`.
pub open spec fn bound_in<N>(ev: EnvV<N>, g: nat, name: Seq<char>) -> Val<N> {
    let vars = ev.frames[g as int].vars;
    vars[find_var(vars, name).unwrap() as int].1
}

/// The built-in procedure named `name`, as a value.
pub open spec fn builtin_from<N>(bs: Seq<(Seq<char>, Prim)>, name: Seq<char>, i: nat) -> Option<Val<N>>
    decreases bs.len() - i,
{
    if i >= bs.len() {
        None
    } else if bs[i as int].0 == name {
        Some(Val::Builtin(bs[i as int].1, name))
    } else {
        builtin_from(bs, name, i + 1)
    }
}

/// What `name` denotes in frame `f`: its binding in the nearest frame that
/// binds it, else the built-in procedure of that name.
pub open spec fn lookup<N>(ev: EnvV<N>, f: nat, name: Seq<char>) -> Option<Val<N>> {
    match owner(ev, f, name) {
        Some(g) => Some(bound_in(ev, g, name)),
        None => builtin_from(ev.builtins, name, 0),
    }
}

/// The bindings `vars` with `name` bound to `v`.
pub open spec fn set_var<N>(vars: Seq<(Seq<char>, Val<N>)>, name: Seq<char>, v: Val<N>) -> Seq<
    (Seq<char>, Val<N>),
> {
    match find_var(vars, name) {
        Some(i) => vars.update(i as int, (name, v)),
        None => vars.push((name, v)),
    }
}

/// The environment with `name` bound to `v` in frame `f`.
pub open spec fn define_spec<N>(ev: EnvV<N>, f: nat, name: Seq<char>, v: Val<N>) -> EnvV<N> {
    if f < ev.frames.len() {
        EnvV {
            frames: ev.frames.update(
                f as int,
                FrameV { vars: set_var(ev.frames[f as int].vars, name, v), ..ev.frames[f as int] },
            ),
            ..ev
        }
    } else {
        ev
    }
}

/// The environment with the binding of `name` that frame `f` sees set to
/// `v`; `None` when no frame at or above `f` binds `name`.
pub open spec fn set_bang_spec<N>(ev: EnvV<N>, f: nat, name: Seq<char>, v: Val<N>) -> Option<
    EnvV<N>,
> {
    match owner(ev, f, name) {
        Some(g) => Some(define_spec(ev, g, name, v)),
        None => None,
    }
}

/// The environment with a new empty frame whose parent is `p` (no parent when
/// `p` is not a frame); the new frame is the last.
pub open spec fn new_child_spec<N>(ev: EnvV<N>, p: nat) -> EnvV<N> {
    EnvV {
        frames: ev.frames.push(
            FrameV {
                vars: seq![],
                parent: if p < ev.frames.len() {
                    Some(p)
                } else {
                    None
                },
            },
        ),
        ..ev
    }
}

/// Every parent comes before its child.
pub open spec fn wf<N>(ev: EnvV<N>) -> bool {
    forall|i: int|
        0 <= i < ev.frames.len() ==> ((#[trigger] ev.frames[i]).parent matches Some(p) ==> p < i)
}

/// The names of the built-in procedures.
pub open spec fn builtin_names() -> Seq<(Seq<char>, Prim)> {
    seq![
        ("+"@, Prim::Add),
        ("-"@, Prim::Sub),
        ("*"@, Prim::Mul),
        ("/"@, Prim::Div),
        ("intdiv"@, Prim::IntDiv),
        ("<"@, Prim::Lt),
        ("mod"@, Prim::Mod),
        ("%"@, Prim::Mod),
        ("and"@, Prim::And),
        ("or"@, Prim::Or),
        ("eq"@, Prim::Eq),
        ("="@, Prim::Eq),
        ("not"@, Prim::Not),
        ("cons"@, Prim::Cons),
        ("car"@, Prim::Car),
        ("cdr"@, Prim::Cdr),
        ("list"@, Prim::List),
        ("append"@, Prim::Append),
        ("number?"@, Prim::IsNumber),
        ("bool?"@, Prim::IsBool),
        ("symbol?"@, Prim::IsSymbol),
        ("char?"@, Prim::IsChar),
        ("string?"@, Prim::IsString),
        ("atom?"@, Prim::IsAtom),
        ("null?"@, Prim::IsNull),
        ("pair?"@, Prim::IsPair),
        ("string-length"@, Prim::StringLength),
        ("string-ref"@, Prim::StringRef),
        ("substring"@, Prim::Substring),
        ("string-append"@, Prim::StringAppend),
        ("string->list"@, Prim::StringList),
        ("string->num"@, Prim::StringNum),
        ("list->string"@, Prim::ListString),
        ("char"@, Prim::MakeChar),
        ("print"@, Prim::Print),
        ("getchar"@, Prim::GetChar),
        ("getline"@, Prim::GetLine),
    ]
}

/// The largest evaluation budget.
pub const MAX_FUEL: u64 = 0xffff_ffff_ffff_ffff;

fn add_builtin(bs: &mut Vec<(String, Prim)>, name: &str, p: Prim)
    ensures
        final(bs)@.map_values(|b: (String, Prim)| (b.0@, b.1)) == old(bs)@.map_values(
            |b: (String, Prim)| (b.0@, b.1),
        ).push((name@, p)),
{
    let ghost before = bs@;
    bs.push((string_from(name), p));
    assert(bs@.map_values(|b: (String, Prim)| (b.0@, b.1)) =~= before.map_values(
        |b: (String, Prim)| (b.0@, b.1),
    ).push((name@, p)));
}

impl<N: Number> Env<N> {
    /// An environment with an empty global frame, the built-in procedures and
    /// the largest evaluation budget.
    pub fn new() -> (env: Self)
        ensures
            env@.frames == seq![FrameV::<N> { vars: seq![], parent: None }],
            env@.builtins == builtin_names(),
            env@.fuel == MAX_FUEL,
            env@.output == Seq::<Seq<char>>::empty(),
            env@.input == Seq::<u8>::empty(),
            env@.input_closed,
            env@.sources == Seq::<(Seq<char>, Seq<char>)>::empty(),
            env.answers() == Seq::<Ans<N>>::empty(),
            wf(env@),
    {
        let mut bs: Vec<(String, Prim)> = Vec::new();
        add_builtin(&mut bs, "+", Prim::Add);
        add_builtin(&mut bs, "-", Prim::Sub);
        add_builtin(&mut bs, "*", Prim::Mul);
        add_builtin(&mut bs, "/", Prim::Div);
        add_builtin(&mut bs, "intdiv", Prim::IntDiv);
        add_builtin(&mut bs, "<", Prim::Lt);
        add_builtin(&mut bs, "mod", Prim::Mod);
        add_builtin(&mut bs, "%", Prim::Mod);
        add_builtin(&mut bs, "and", Prim::And);
        add_builtin(&mut bs, "or", Prim::Or);
        add_builtin(&mut bs, "eq", Prim::Eq);
        add_builtin(&mut bs, "=", Prim::Eq);
        add_builtin(&mut bs, "not", Prim::Not);
        add_builtin(&mut bs, "cons", Prim::Cons);
        add_builtin(&mut bs, "car", Prim::Car);
        add_builtin(&mut bs, "cdr", Prim::Cdr);
        add_builtin(&mut bs, "list", Prim::List);
        add_builtin(&mut bs, "append", Prim::Append);
        add_builtin(&mut bs, "number?", Prim::IsNumber);
        add_builtin(&mut bs, "bool?", Prim::IsBool);
        add_builtin(&mut bs, "symbol?", Prim::IsSymbol);
        add_builtin(&mut bs, "char?", Prim::IsChar);
        add_builtin(&mut bs, "string?", Prim::IsString);
        add_builtin(&mut bs, "atom?", Prim::IsAtom);
        add_builtin(&mut bs, "null?", Prim::IsNull);
        add_builtin(&mut bs, "pair?", Prim::IsPair);
        add_builtin(&mut bs, "string-length", Prim::StringLength);
        add_builtin(&mut bs, "string-ref", Prim::StringRef);
        add_builtin(&mut bs, "substring", Prim::Substring);
        add_builtin(&mut bs, "string-append", Prim::StringAppend);
        add_builtin(&mut bs, "string->list", Prim::StringList);
        add_builtin(&mut bs, "string->num", Prim::StringNum);
        add_builtin(&mut bs, "list->string", Prim::ListString);
        add_builtin(&mut bs, "char", Prim::MakeChar);
        add_builtin(&mut bs, "print", Prim::Print);
        add_builtin(&mut bs, "getchar", Prim::GetChar);
        add_builtin(&mut bs, "getline", Prim::GetLine);
        let mut frames: Vec<Frame<N>> = Vec::new();
        frames.push(Frame { vars: Vec::new(), parent: None });
        let env = Env {
            frames,
            builtins: bs,
            fuel: MAX_FUEL,
            log: NumLog::new(),
            output: Vec::new(),
            input: Vec::new(),
            input_closed: true,
            sources: Vec::new(),
        };
        proof {
            assert(env@.frames =~= seq![FrameV::<N> { vars: seq![], parent: None }]) by {
                assert(frame_view(env.frames@[0]).vars =~= seq![]);
            }
            assert(env@.builtins =~= builtin_names());
            assert(env@.output =~= Seq::<Seq<char>>::empty());
            assert(env@.sources =~= Seq::<(Seq<char>, Seq<char>)>::empty());
        }
        env
    }
}

impl<N: Number> Env<N> {
    /// The frame, at or above `frame`, that binds `name`.
    pub fn owner_of(&self, frame: usize, name: &String) -> (r: Option<(usize, usize)>)
        ensures
            match r {
                Some((g, i)) => owner(self@, frame as nat, name@) == Some(g as nat) && find_var(
                    self@.frames[g as int].vars,
                    name@,
                ) == Some(i as nat) && g < self.frames@.len() && i < self.frames@[g as int].vars@.len(),
                None => owner(self@, frame as nat, name@) is None,
            },
    {
        let mut cur = frame;
        loop
            invariant
                owner(self@, cur as nat, name@) == owner(self@, frame as nat, name@),
            decreases cur,
        {
            if cur >= self.frames.len() {
                return None;
            }
            let vars = &self.frames[cur].vars;
            let mut i: usize = 0;
            while i < vars.len()
                invariant
                    vars == self.frames@[cur as int].vars,
                    cur < self.frames@.len(),
                    owner(self@, cur as nat, name@) == owner(self@, frame as nat, name@),
                    find_from(self@.frames[cur as int].vars, name@, i as nat) == find_var(
                        self@.frames[cur as int].vars,
                        name@,
                    ),
                decreases vars.len() - i,
            {
                if vars[i].0 == *name {
                    assert(self@.frames[cur as int].vars[i as int].0 == name@);
                    assert(find_from(self@.frames[cur as int].vars, name@, i as nat) == Some(
                        i as nat,
                    ));
                    assert(owner(self@, cur as nat, name@) == Some(cur as nat));
                    return Some((cur, i));
                }
                i += 1;
            }
            match self.frames[cur].parent {
                Some(p) => {
                    if p < cur {
                        cur = p;
                    } else {
                        return None;
                    }
                },
                None => {
                    return None;
                },
            }
        }
    }

    /// What `name` denotes in `frame`.
    pub fn resolve(&self, frame: usize, name: &String) -> (r: Option<Value<N>>)
        ensures
            match r {
                Some(v) => lookup(self@, frame as nat, name@) == Some(v@),
                None => lookup(self@, frame as nat, name@) is None,
            },
    {
        match self.owner_of(frame, name) {
            Some((g, i)) => Some(clone_value(&self.frames[g].vars[i].1)),
            None => {
                let mut i: usize = 0;
                while i < self.builtins.len()
                    invariant
                        owner(self@, frame as nat, name@) is None,
                        builtin_from::<N>(self@.builtins, name@, i as nat) == builtin_from::<N>(
                            self@.builtins,
                            name@,
                            0,
                        ),
                    decreases self.builtins.len() - i,
                {
                    if self.builtins[i].0 == *name {
                        assert(self@.builtins[i as int].0 == name@);
                        assert(builtin_from::<N>(self@.builtins, name@, i as nat) == Some(
                            Val::<N>::Builtin(self@.builtins[i as int].1, name@),
                        ));
                        return Some(Value::Builtin(self.builtins[i].1, name.clone()));
                    }
                    i += 1;
                }
                None
            },
        }
    }

    /// Binds `name` to `value` in `frame`.
    pub fn define(&mut self, frame: usize, name: String, value: Value<N>)
        ensures
            final(self)@ == define_spec(old(self)@, frame as nat, name@, value@),
            final(self).answers() == old(self).answers(),
    {
        if frame >= self.frames.len() {
            return;
        }
        let ghost ev = self@;
        let ghost nv = name@;
        let ghost vv = value@;
        let found = find_index(&self.frames[frame].vars, &name);
        let ghost old_frames = self.frames@;
        match found {
            Some(i) => {
                self.frames[frame].vars.set(i, (name, value));
            },
            None => {
                self.frames[frame].vars.push((name, value));
            },
        }
        proof {
            let fr = self.frames@[frame as int];
            assert(fr.vars@.map_values(|b: (String, Value<N>)| binding_view(b)) =~= set_var(
                ev.frames[frame as int].vars,
                nv,
                vv,
            ));
            assert(self@.frames =~= define_spec(ev, frame as nat, nv, vv).frames) by {
                assert forall|j: int| 0 <= j < self@.frames.len() implies self@.frames[j]
                    == define_spec(ev, frame as nat, nv, vv).frames[j] by {
                    if j != frame {
                        assert(self.frames@[j] == old_frames[j]);
                    }
                }
            }
        }
    }
}

impl<N: Number> Env<N> {
    /// Sets the binding of `name` that `frame` sees to `value`; fails when no
    /// frame at or above `frame` binds `name` (built-in procedures cannot be set).
    pub fn set_bang(&mut self, frame: usize, name: String, value: Value<N>) -> (r: Result<(), Error>)
        ensures
            match r {
                Ok(()) => set_bang_spec(old(self)@, frame as nat, name@, value@) == Some(final(self)@),
                Err(e) => set_bang_spec(old(self)@, frame as nat, name@, value@) is None
                    && final(self)@ == old(self)@ && e@ == crate::errors::ErrV::SetUndefined(name@),
            },
            final(self).answers() == old(self).answers(),
    {
        match self.owner_of(frame, &name) {
            Some((g, _)) => {
                self.define(g, name, value);
                Ok(())
            },
            None => Err(Error::Eval(EvalError::SetUndefined(name))),
        }
    }

    /// Adds an empty frame whose parent is `parent` (no parent when `parent` is
    /// not a frame); returns its index.
    pub fn new_child(&mut self, parent: usize) -> (r: usize)
        requires
            old(self).frames@.len() < usize::MAX,
        ensures
            final(self)@ == new_child_spec(old(self)@, parent as nat),
            r == old(self)@.frames.len(),
            final(self).answers() == old(self).answers(),
    {
        let ghost ev = self@;
        let n = self.frames.len();
        let p = if parent < n {
            Some(parent)
        } else {
            None
        };
        self.frames.push(Frame { vars: Vec::new(), parent: p });
        proof {
            assert(frame_view(self.frames@[n as int]).vars =~= seq![]);
            assert(self@.frames =~= new_child_spec(ev, parent as nat).frames);
        }
        n
    }
}

/// The index of the binding of `name` in `vars`.
pub fn find_index<N: Number>(vars: &Vec<(String, Value<N>)>, name: &String) -> (r: Option<usize>)
    ensures
        match r {
            Some(i) => find_var(vars@.map_values(|b: (String, Value<N>)| binding_view(b)), name@)
                == Some(i as nat) && i < vars@.len(),
            None => find_var(vars@.map_values(|b: (String, Value<N>)| binding_view(b)), name@) is None,
        },
{
    let ghost vs = vars@.map_values(|b: (String, Value<N>)| binding_view(b));
    let mut i: usize = 0;
    while i < vars.len()
        invariant
            vs == vars@.map_values(|b: (String, Value<N>)| binding_view(b)),
            find_from(vs, name@, i as nat) == find_var(vs, name@),
        decreases vars.len() - i,
    {
        if vars[i].0 == *name {
            assert(vs[i as int].0 == name@);
            return Some(i);
        }
        i += 1;
    }
    None
}

/// A binding read back from the frame that was just written gives the value written.
pub proof fn lemma_find_set_var<N>(vars: Seq<(Seq<char>, Val<N>)>, x: Seq<char>, v: Val<N>, y: Seq<char>)
    ensures
        x == y ==> find_var(set_var(vars, x, v), y) is Some && set_var(vars, x, v)[find_var(
            set_var(vars, x, v),
            y,
        ).unwrap() as int].1 == v,
        x != y ==> find_var(set_var(vars, x, v), y) == find_var(vars, y),
        x != y ==> (find_var(vars, y) matches Some(i) ==> set_var(vars, x, v)[i as int] == vars[i as int]),
{
    lemma_find_from_set(vars, x, v, y, 0);
}

proof fn lemma_find_from_set<N>(vars: Seq<(Seq<char>, Val<N>)>, x: Seq<char>, v: Val<N>, y: Seq<char>, k: nat)
    requires
        k <= vars.len(),
        forall|j: int| 0 <= j < k ==> vars[j].0 != x || x != y,
        x == y ==> forall|j: int| 0 <= j < k ==> vars[j].0 != x,
    ensures
        x == y ==> find_from(set_var(vars, x, v), y, k) is Some && set_var(vars, x, v)[find_from(
            set_var(vars, x, v),
            y,
            k,
        ).unwrap() as int].1 == v,
        x != y ==> find_from(set_var(vars, x, v), y, k) == find_from(vars, y, k),
        x != y ==> (find_from(vars, y, k) matches Some(i) ==> set_var(vars, x, v)[i as int] == vars[i as int]),
    decreases vars.len() + 1 - k,
{
    lemma_find_var_props(vars, x, 0);
    let w = set_var(vars, x, v);
    match find_var(vars, x) {
        Some(i) => {
            assert(w.len() == vars.len());
        },
        None => {
            assert(w.len() == vars.len() + 1);
        },
    }
    if k < w.len() {
        if k < vars.len() && vars[k as int].0 == x && x == y {
        } else {
            if x == y && k < vars.len() {
                lemma_find_from_set(vars, x, v, y, k + 1);
            } else if x != y && k < vars.len() {
                lemma_find_from_set(vars, x, v, y, k + 1);
            }
        }
    }
}

/// `find_var` gives the first binding of the name.
pub proof fn lemma_find_var_props<N>(vars: Seq<(Seq<char>, Val<N>)>, x: Seq<char>, k: nat)
    ensures
        find_from(vars, x, k) matches Some(i) ==> k <= i < vars.len() && vars[i as int].0 == x
            && forall|j: int| k <= j < i ==> vars[j].0 != x,
        find_from(vars, x, k) is None ==> forall|j: int| k <= j < vars.len() ==> vars[j].0 != x,
    decreases vars.len() - k,
{
    if k < vars.len() {
        lemma_find_var_props(vars, x, k + 1);
    }
}

/// Law: after `x` is bound to `v` in frame `f`, `x` denotes `v` in `f`.
pub proof fn law_define_then_lookup<N>(ev: EnvV<N>, f: nat, x: Seq<char>, v: Val<N>)
    requires
        f < ev.frames.len(),
    ensures
        lookup(define_spec(ev, f, x, v), f, x) == Some(v),
{
    lemma_find_set_var(ev.frames[f as int].vars, x, v, x);
    let ev2 = define_spec(ev, f, x, v);
    assert(ev2.frames[f as int].vars == set_var(ev.frames[f as int].vars, x, v));
    assert(owner(ev2, f, x) == Some(f));
}

proof fn lemma_owner_define_other<N>(ev: EnvV<N>, f: nat, x: Seq<char>, v: Val<N>, g: nat, y: Seq<char>)
    requires
        x != y,
    ensures
        owner(define_spec(ev, f, x, v), g, y) == owner(ev, g, y),
        owner(ev, g, y) matches Some(h) ==> bound_in(define_spec(ev, f, x, v), h, y) == bound_in(
            ev,
            h,
            y,
        ),
    decreases g,
{
    let ev2 = define_spec(ev, f, x, v);
    if g < ev.frames.len() {
        if g == f {
            lemma_find_set_var(ev.frames[f as int].vars, x, v, y);
        }
        assert(ev2.frames[g as int].parent == ev.frames[g as int].parent);
        assert(find_var(ev2.frames[g as int].vars, y) == find_var(ev.frames[g as int].vars, y));
        if let Some(p) = ev.frames[g as int].parent {
            if p < g {
                lemma_owner_define_other(ev, f, x, v, p, y);
            }
        }
        if let Some(h) = owner(ev, g, y) {
            if h == f {
                lemma_find_set_var(ev.frames[f as int].vars, x, v, y);
            }
        }
    }
}

/// Law: binding `x` leaves what every other name denotes unchanged, in every frame.
pub proof fn law_define_keeps_others<N>(
    ev: EnvV<N>,
    f: nat,
    x: Seq<char>,
    v: Val<N>,
    g: nat,
    y: Seq<char>,
)
    requires
        x != y,
    ensures
        lookup(define_spec(ev, f, x, v), g, y) == lookup(ev, g, y),
{
    lemma_owner_define_other(ev, f, x, v, g, y);
}

proof fn lemma_owner_push<N>(ev: EnvV<N>, p: nat, g: nat, y: Seq<char>)
    requires
        g < ev.frames.len(),
    ensures
        owner(new_child_spec(ev, p), g, y) == owner(ev, g, y),
        owner(ev, g, y) matches Some(h) ==> bound_in(new_child_spec(ev, p), h, y) == bound_in(ev, h, y),
    decreases g,
{
    let ev2 = new_child_spec(ev, p);
    assert(ev2.frames[g as int] == ev.frames[g as int]);
    if let Some(q) = ev.frames[g as int].parent {
        if q < g {
            lemma_owner_push(ev, p, q, y);
        }
    }
    lemma_owner_in_range(ev, g, y);
    if let Some(h) = owner(ev, g, y) {
        assert(ev2.frames[h as int] == ev.frames[h as int]);
    }
}

proof fn lemma_owner_in_range<N>(ev: EnvV<N>, g: nat, y: Seq<char>)
    ensures
        owner(ev, g, y) matches Some(h) ==> h <= g && h < ev.frames.len() && find_var(
            ev.frames[h as int].vars,
            y,
        ) is Some,
    decreases g,
{
    if g < ev.frames.len() {
        if let Some(q) = ev.frames[g as int].parent {
            if q < g {
                lemma_owner_in_range(ev, q, y);
            }
        }
    }
}

/// Law: a new child frame sees what its parent sees.
pub proof fn law_new_child_sees_parent<N>(ev: EnvV<N>, p: nat, y: Seq<char>)
    requires
        p < ev.frames.len(),
    ensures
        lookup(new_child_spec(ev, p), ev.frames.len(), y) == lookup(ev, p, y),
{
    let ev2 = new_child_spec(ev, p);
    let n = ev.frames.len();
    assert(ev2.frames[n as int].vars == Seq::<(Seq<char>, Val<N>)>::empty());
    assert(find_var(ev2.frames[n as int].vars, y) is None);
    assert(owner(ev2, n, y) == owner(ev2, p, y));
    lemma_owner_push(ev, p, p, y);
}

/// Law: adding a frame changes what no existing frame sees.
pub proof fn law_new_child_keeps_frames<N>(ev: EnvV<N>, p: nat, g: nat, y: Seq<char>)
    requires
        g < ev.frames.len(),
    ensures
        lookup(new_child_spec(ev, p), g, y) == lookup(ev, g, y),
{
    lemma_owner_push(ev, p, g, y);
}

proof fn lemma_owner_define_same<N>(ev: EnvV<N>, f: nat, g: nat, x: Seq<char>, v: Val<N>)
    requires
        owner(ev, f, x) == Some(g),
    ensures
        owner(define_spec(ev, g, x, v), f, x) == Some(g),
    decreases f,
{
    lemma_owner_in_range(ev, f, x);
    let ev2 = define_spec(ev, g, x, v);
    assert(ev2.frames[f as int].parent == ev.frames[f as int].parent);
    if f == g {
        lemma_find_set_var(ev.frames[g as int].vars, x, v, x);
    } else {
        assert(ev2.frames[f as int] == ev.frames[f as int]);
        if let Some(q) = ev.frames[f as int].parent {
            if q < f {
                lemma_owner_define_same(ev, q, g, x, v);
            }
        }
    }
}

/// Law: after a successful `set!` of `x` to `v` in frame `f`, `x` denotes `v` in `f`.
pub proof fn law_set_bang_then_lookup<N>(ev: EnvV<N>, f: nat, x: Seq<char>, v: Val<N>)
    requires
        set_bang_spec(ev, f, x, v) is Some,
    ensures
        lookup(set_bang_spec(ev, f, x, v).unwrap(), f, x) == Some(v),
{
    let g = owner(ev, f, x).unwrap();
    lemma_owner_in_range(ev, f, x);
    lemma_owner_define_same(ev, f, g, x, v);
    lemma_find_set_var(ev.frames[g as int].vars, x, v, x);
}

/// Law: `set!` rewrites the one binding of `x` that frame `f` sees, in the
/// frame `g` that holds it, and nothing else: every other frame, the frame
/// `f` of the caller included when it is not `g`, keeps its bindings (it
/// gains none for `x`); `g` keeps its parent and its number of bindings;
/// every frame that saw that binding of `x` now sees `v`; and every other
/// name denotes what it did, in every frame.
pub proof fn law_set_bang_updates_owner<N>(
    ev: EnvV<N>,
    f: nat,
    x: Seq<char>,
    v: Val<N>,
    h: nat,
    y: Seq<char>,
)
    requires
        owner(ev, f, x) is Some,
    ensures
        ({
            let g = owner(ev, f, x).unwrap();
            let ev2 = set_bang_spec(ev, f, x, v).unwrap();
            &&& set_bang_spec(ev, f, x, v) is Some
            &&& ev2.frames.len() == ev.frames.len()
            &&& h < ev.frames.len() && h != g ==> ev2.frames[h as int] == ev.frames[h as int]
            &&& ev2.frames[g as int].parent == ev.frames[g as int].parent
            &&& ev2.frames[g as int].vars.len() == ev.frames[g as int].vars.len()
            &&& owner(ev, h, x) == Some(g) ==> lookup(ev2, h, x) == Some(v)
            &&& y != x ==> lookup(ev2, h, y) == lookup(ev, h, y)
            &&& ev2.builtins == ev.builtins && ev2.fuel == ev.fuel && ev2.count == ev.count
            &&& ev2.output == ev.output && ev2.input == ev.input && ev2.sources == ev.sources
        }),
{
    let g = owner(ev, f, x).unwrap();
    lemma_owner_in_range(ev, f, x);
    lemma_find_var_props(ev.frames[g as int].vars, x, 0);
    if owner(ev, h, x) == Some(g) {
        lemma_owner_in_range(ev, h, x);
        lemma_owner_define_same(ev, h, g, x, v);
        lemma_find_set_var(ev.frames[g as int].vars, x, v, x);
    }
    if y != x {
        lemma_owner_define_other(ev, g, x, v, h, y);
    }
}

/// Law: `set!` fails exactly when no frame at or above `f` binds `x`, so a
/// name that only a built-in procedure has cannot be set.
pub proof fn law_set_bang_needs_binding<N>(ev: EnvV<N>, f: nat, x: Seq<char>, v: Val<N>)
    ensures
        set_bang_spec(ev, f, x, v) is None <==> owner(ev, f, x) is None,
        owner(ev, f, x) is None ==> lookup(ev, f, x) == builtin_from::<N>(ev.builtins, x, 0),
{
}

/// Law: defining and adding frames keep every parent before its child.
pub proof fn law_wf_preserved<N>(ev: EnvV<N>, f: nat, x: Seq<char>, v: Val<N>, p: nat)
    requires
        wf(ev),
    ensures
        wf(define_spec(ev, f, x, v)),
        wf(new_child_spec(ev, p)),
        set_bang_spec(ev, f, x, v) matches Some(ev2) ==> wf(ev2),
{
    let ev2 = define_spec(ev, f, x, v);
    assert forall|i: int| 0 <= i < ev2.frames.len() implies ((#[trigger] ev2.frames[i]).parent matches Some(
        q,
    ) ==> q < i) by {
        assert(ev2.frames[i].parent == ev.frames[i].parent);
    }
    let ev3 = new_child_spec(ev, p);
    assert forall|i: int| 0 <= i < ev3.frames.len() implies ((#[trigger] ev3.frames[i]).parent matches Some(
        q,
    ) ==> q < i) by {
        if i < ev.frames.len() {
            assert(ev3.frames[i] == ev.frames[i]);
        }
    }
    if let Some(g) = owner(ev, f, x) {
        let ev4 = define_spec(ev, g, x, v);
        assert forall|i: int| 0 <= i < ev4.frames.len() implies ((#[trigger] ev4.frames[i]).parent matches Some(
            q,
        ) ==> q < i) by {
            assert(ev4.frames[i].parent == ev.frames[i].parent);
        }
    }
}


proof fn lemma_owner_same_frames<N>(a: EnvV<N>, b: EnvV<N>, f: nat, name: Seq<char>)
    requires
        a.frames == b.frames,
    ensures
        owner(a, f, name) == owner(b, f, name),
    decreases f,
{
    if f < a.frames.len() {
        if let Some(p) = a.frames[f as int].parent {
            if p < f {
                lemma_owner_same_frames(a, b, p, name);
            }
        }
    }
}

/// What a name denotes depends only on the frames and the built-in procedures.
pub proof fn lemma_lookup_same_frames<N>(a: EnvV<N>, b: EnvV<N>, f: nat, name: Seq<char>)
    requires
        a.frames == b.frames,
        a.builtins == b.builtins,
    ensures
        lookup(a, f, name) == lookup(b, f, name),
{
    lemma_owner_same_frames(a, b, f, name);
}

} // verus!
