//! The chain of scope frames. All frames live in one arena and are named by
//! their index; a frame links to the frame that encloses it, which is always
//! an older one. A frame in which a function was declared lasts, and so does
//! every older frame: a closure that holds the index of its defining frame
//! sees every later change made to that frame. Other frames can be removed
//! again once they are the newest frame.

use vstd::prelude::*;
use vstd::hash_map::StringHashMap;
use vstd::string::*;
use crate::expr::{value_option_view, Function, FunctionModel, LiteralValue, ValueModel};

verus! {

/// Number of enclosing links that lead from frame `i` to a root.
pub open spec fn hops(links: Seq<Option<nat>>, i: nat) -> nat
    decreases i,
{
    if i < links.len() {
        match links[i as int] {
            Some(p) => if p < i {
                1 + hops(links, p)
            } else {
                0
            },
            None => 0,
        }
    } else {
        0
    }
}

/// The frame reached from frame `i` by following `d` enclosing links.
pub open spec fn ancestor(links: Seq<Option<nat>>, i: nat, d: nat) -> nat
    decreases d,
{
    if d == 0 {
        i
    } else if i < links.len() {
        match links[i as int] {
            Some(p) => ancestor(links, p, (d - 1) as nat),
            None => i,
        }
    } else {
        i
    }
}

/// The first frame that binds `name`, going from frame `i` toward the root.
pub open spec fn holder(
    scopes: Seq<Map<Seq<char>, ValueModel>>,
    links: Seq<Option<nat>>,
    i: nat,
    name: Seq<char>,
) -> Option<nat>
    decreases i,
{
    if i >= scopes.len() || i >= links.len() {
        None
    } else if scopes[i as int].contains_key(name) {
        Some(i)
    } else {
        match links[i as int] {
            Some(p) => if p < i {
                holder(scopes, links, p, name)
            } else {
                None
            },
            None => None,
        }
    }
}

/// Whether a value can live in an arena whose lasting frames are linked as
/// `links` says: a closure names one of these frames, takes as many
/// arguments as its declaration has parameters, and every binding distance
/// recorded for its body stays within the chain that a call of it will run
/// on.
pub open spec fn value_ok(v: ValueModel, links: Seq<Option<nat>>) -> bool
    decreases v,
{
    match v {
        ValueModel::Callable { name, arity, fun } => match fun {
            FunctionModel::Clock => arity == 0,
            FunctionModel::Closure { declaration, frame, locals } => {
                &&& frame < links.len()
                &&& declaration.params.len() == arity
                &&& declaration.resolved_within(locals, hops(links, frame))
            },
        },
        ValueModel::Class { name, methods } => forall|i: int|
            0 <= i < methods.len() ==> value_ok(#[trigger] methods[i], links),
        _ => true,
    }
}

/// Mathematical counterpart of [`Environment`]: the bindings of each frame,
/// the enclosing link of each frame, the frame that is current, and the
/// number of frames that last: the frames up to the newest one in which a
/// function was declared.
pub struct EnvModel {
    pub scopes: Seq<Map<Seq<char>, ValueModel>>,
    pub links: Seq<Option<nat>>,
    pub current: nat,
    pub captured: nat,
}

impl EnvModel {
    /// The frames form chains: there is a current frame, every link points
    /// to an older frame, and the frames that last are frames of the arena.
    pub open spec fn chained(self) -> bool {
        &&& self.scopes.len() == self.links.len()
        &&& self.current < self.links.len()
        &&& self.captured <= self.links.len()
        &&& forall|i: int|
            0 <= i < self.links.len() ==> match #[trigger] self.links[i] {
                Some(p) => p < i,
                None => true,
            }
    }

    /// The links of the frames that last. A function value may only name
    /// one of these frames.
    pub open spec fn lasting(self) -> Seq<Option<nat>> {
        self.links.take(self.captured as int)
    }

    /// Whether the value can be stored in this arena.
    pub open spec fn admits(self, v: ValueModel) -> bool {
        value_ok(v, self.lasting())
    }

    /// The frames form chains and every stored value can live in the arena.
    pub open spec fn wf(self) -> bool {
        &&& self.chained()
        &&& forall|i: int, k: Seq<char>|
            0 <= i < self.scopes.len() && (#[trigger] self.scopes[i].contains_key(k))
                ==> value_ok(self.scopes[i][k], self.lasting())
    }

    /// Number of enclosing links between the current frame and its root.
    pub open spec fn depth(self) -> nat {
        hops(self.links, self.current)
    }

    /// Whether a lookup by `distance` stays inside the current chain. A
    /// lookup without a distance always does.
    pub open spec fn reaches(self, distance: Option<usize>) -> bool {
        match distance {
            Some(d) => d <= self.depth(),
            None => true,
        }
    }

    /// The frame that a lookup of `name` by `distance` reads: the frame
    /// `distance` links up, or without a distance the first frame from the
    /// current one toward the root that binds `name`.
    pub open spec fn target(self, name: Seq<char>, distance: Option<usize>) -> Option<nat> {
        match distance {
            Some(d) => Some(ancestor(self.links, self.current, d as nat)),
            None => holder(self.scopes, self.links, self.current, name),
        }
    }

    /// What a lookup of `name` by `distance` finds.
    pub open spec fn get(self, name: Seq<char>, distance: Option<usize>) -> Option<ValueModel> {
        match self.target(name, distance) {
            Some(f) => if f < self.scopes.len() && self.scopes[f as int].contains_key(name) {
                Some(self.scopes[f as int][name])
            } else {
                None
            },
            None => None,
        }
    }

    /// The arena after `name` is bound to `v` in frame `f`.
    pub open spec fn bind(self, f: nat, name: Seq<char>, v: ValueModel) -> EnvModel {
        EnvModel { scopes: self.scopes.update(f as int, self.scopes[f as int].insert(name, v)), ..self }
    }

    /// The arena after `name` is bound to `v` in the current frame.
    pub open spec fn define(self, name: Seq<char>, v: ValueModel) -> EnvModel {
        self.bind(self.current, name, v)
    }

    /// Whether an assignment to `name` by `distance` takes place: always
    /// with a distance, and without one when some frame of the chain binds
    /// `name`.
    pub open spec fn assigns(self, name: Seq<char>, distance: Option<usize>) -> bool {
        self.target(name, distance) is Some
    }

    /// The arena after an assignment of `v` to `name` by `distance`.
    pub open spec fn assign(self, name: Seq<char>, v: ValueModel, distance: Option<usize>) -> EnvModel {
        match self.target(name, distance) {
            Some(f) => self.bind(f, name, v),
            None => self,
        }
    }

    /// The arena after a new frame was made inside the current one and
    /// became current.
    pub open spec fn enclose(self) -> EnvModel {
        EnvModel {
            scopes: self.scopes.push(Map::empty()),
            links: self.links.push(Some(self.current)),
            current: self.links.len(),
            ..self
        }
    }

    /// The arena after a function was declared in the current frame: the
    /// frames up to the current one last from now on.
    pub open spec fn capture(self) -> EnvModel {
        if self.captured <= self.current {
            EnvModel { captured: self.current + 1, ..self }
        } else {
            self
        }
    }

    /// Whether frame `frame` can be removed: it is the newest frame, it is
    /// not one of the frames that last, and it lies behind the current
    /// frame.
    pub open spec fn releases(self, frame: nat) -> bool {
        frame + 1 == self.links.len() && self.captured <= frame && self.current < frame
    }

    /// The arena after frame `frame` was given up: the frame is removed when
    /// it can be, and nothing changes otherwise.
    pub open spec fn release(self, frame: nat) -> EnvModel {
        if self.releases(frame) {
            EnvModel { scopes: self.scopes.drop_last(), links: self.links.drop_last(), ..self }
        } else {
            self
        }
    }

    /// The arena with `frame` as the current frame.
    pub open spec fn enter(self, frame: nat) -> EnvModel {
        EnvModel { current: frame, ..self }
    }
}

/// The bindings that every root frame starts with: the clock.
pub open spec fn globals() -> Map<Seq<char>, ValueModel> {
    Map::empty().insert(
        "clock"@,
        ValueModel::Callable { name: "clock"@, arity: 0, fun: FunctionModel::Clock },
    )
}

/// Whether the links `later` are the links `earlier` with more frames added
/// behind them.
pub open spec fn extends(earlier: Seq<Option<nat>>, later: Seq<Option<nat>>) -> bool {
    &&& earlier.len() <= later.len()
    &&& forall|i: int| 0 <= i < earlier.len() ==> #[trigger] later[i] == earlier[i]
}

/// Adding frames leaves the number of links above every older frame as it
/// was.
pub proof fn lemma_hops_extends(earlier: Seq<Option<nat>>, later: Seq<Option<nat>>, i: nat)
    requires
        extends(earlier, later),
        i < earlier.len(),
    ensures
        hops(later, i) == hops(earlier, i),
    decreases i,
{
    match earlier[i as int] {
        Some(p) => {
            if p < i {
                lemma_hops_extends(earlier, later, p);
            }
        },
        None => {},
    }
}

/// A value that can live in an arena can live in it after frames were added.
pub proof fn lemma_value_ok_extends(
    v: ValueModel,
    earlier: Seq<Option<nat>>,
    later: Seq<Option<nat>>,
)
    requires
        value_ok(v, earlier),
        extends(earlier, later),
    ensures
        value_ok(v, later),
    decreases v,
{
    match v {
        ValueModel::Callable { name, arity, fun } => match fun {
            FunctionModel::Clock => {},
            FunctionModel::Closure { declaration, frame, locals } => {
                lemma_hops_extends(earlier, later, frame);
            },
        },
        ValueModel::Class { name, methods } => {
            assert forall|i: int| 0 <= i < methods.len() implies value_ok(
                #[trigger] methods[i],
                later,
            ) by {
                lemma_value_ok_extends(methods[i], earlier, later);
            }
        },
        _ => {},
    }
}

/// A value that is a number, text, a truth value or `nil` can live in every
/// arena.
pub proof fn lemma_plain_ok(v: ValueModel, links: Seq<Option<nat>>)
    requires
        v.is_plain(),
    ensures
        value_ok(v, links),
{
}

/// What a lookup finds in a well-formed arena can live in the arena.
pub proof fn lemma_get_admitted(env: EnvModel, name: Seq<char>, distance: Option<usize>)
    requires
        env.wf(),
        env.reaches(distance),
    ensures
        match env.get(name, distance) {
            Some(v) => env.admits(v),
            None => true,
        },
{
    lemma_target(env, name, distance);
}

/// An assignment of a value that the arena admits keeps the arena well
/// formed and its links and current frame as they were.
pub proof fn lemma_assign_wf(env: EnvModel, name: Seq<char>, v: ValueModel, distance: Option<usize>)
    requires
        env.wf(),
        env.reaches(distance),
        env.admits(v),
    ensures
        env.assign(name, v, distance).wf(),
        env.assign(name, v, distance).links == env.links,
        env.assign(name, v, distance).current == env.current,
        env.assign(name, v, distance).captured == env.captured,
{
    lemma_target(env, name, distance);
    match env.target(name, distance) {
        Some(f) => {
            lemma_bind_wf(env, f, name, v);
        },
        None => {},
    }
}

/// Following links from a frame of a chained arena stays inside the arena,
/// and uses up as many of the frame's links as were followed.
pub proof fn lemma_ancestor(env: EnvModel, i: nat, d: nat)
    requires
        env.chained(),
        i < env.links.len(),
        d <= hops(env.links, i),
    ensures
        ancestor(env.links, i, d) < env.links.len(),
        hops(env.links, ancestor(env.links, i, d)) == hops(env.links, i) - d,
    decreases d,
{
    if d > 0 {
        match env.links[i as int] {
            Some(p) => {
                lemma_ancestor(env, p, (d - 1) as nat);
            },
            None => {},
        }
    }
}

/// The frame that binds a name for a lookup without a distance is a frame of
/// the arena and does bind the name.
pub proof fn lemma_holder(env: EnvModel, i: nat, name: Seq<char>)
    requires
        env.chained(),
    ensures
        match holder(env.scopes, env.links, i, name) {
            Some(f) => f < env.scopes.len() && f <= i && env.scopes[f as int].contains_key(name),
            None => true,
        },
    decreases i,
{
    if i < env.scopes.len() && !env.scopes[i as int].contains_key(name) {
        match env.links[i as int] {
            Some(p) => {
                if p < i {
                    lemma_holder(env, p, name);
                }
            },
            None => {},
        }
    }
}

/// The frame that a lookup reads or an assignment writes is a frame of the
/// arena.
pub proof fn lemma_target(env: EnvModel, name: Seq<char>, distance: Option<usize>)
    requires
        env.chained(),
        env.reaches(distance),
    ensures
        match env.target(name, distance) {
            Some(f) => f < env.scopes.len(),
            None => true,
        },
{
    match distance {
        Some(d) => {
            lemma_ancestor(env, env.current, d as nat);
        },
        None => {
            lemma_holder(env, env.current, name);
        },
    }
}

/// Binding a value that the arena admits keeps the arena well formed.
pub proof fn lemma_bind_wf(env: EnvModel, f: nat, name: Seq<char>, v: ValueModel)
    requires
        env.wf(),
        f < env.scopes.len(),
        env.admits(v),
    ensures
        env.bind(f, name, v).wf(),
        env.bind(f, name, v).links == env.links,
        env.bind(f, name, v).current == env.current,
        env.bind(f, name, v).captured == env.captured,
{
    let after = env.bind(f, name, v);
    assert forall|i: int, k: Seq<char>|
        0 <= i < after.scopes.len() && (#[trigger] after.scopes[i].contains_key(k)) implies value_ok(
        after.scopes[i][k],
        after.lasting(),
    ) by {
        if i == f && k == name {
        } else {
            assert(env.scopes[i].contains_key(k));
        }
    }
}

/// Making a new frame keeps the arena well formed, makes the chain one link
/// longer, and leaves the frames that last as they were.
pub proof fn lemma_enclose_wf(env: EnvModel)
    requires
        env.wf(),
    ensures
        env.enclose().wf(),
        env.enclose().depth() == env.depth() + 1,
        env.enclose().lasting() == env.lasting(),
{
    let after = env.enclose();
    lemma_hops_extends(env.links, after.links, env.current);
    assert(after.lasting() =~= env.lasting());
    assert forall|i: int, k: Seq<char>|
        0 <= i < after.scopes.len() && (#[trigger] after.scopes[i].contains_key(k)) implies value_ok(
        after.scopes[i][k],
        after.lasting(),
    ) by {
        if i < env.scopes.len() {
            assert(env.scopes[i].contains_key(k));
        }
    }
}

/// Declaring a function keeps the arena well formed: every value that could
/// live in the arena still can, and a function value that names the current
/// frame now can.
pub proof fn lemma_capture_wf(env: EnvModel)
    requires
        env.wf(),
    ensures
        env.capture().wf(),
        extends(env.lasting(), env.capture().lasting()),
        env.current < env.capture().captured,
        hops(env.capture().lasting(), env.current) == env.depth(),
{
    let after = env.capture();
    assert(extends(env.lasting(), after.lasting()));
    assert(extends(after.lasting(), env.links));
    lemma_hops_extends(after.lasting(), env.links, env.current);
    assert forall|i: int, k: Seq<char>|
        0 <= i < after.scopes.len() && (#[trigger] after.scopes[i].contains_key(k)) implies value_ok(
        after.scopes[i][k],
        after.lasting(),
    ) by {
        lemma_value_ok_extends(env.scopes[i][k], env.lasting(), after.lasting());
    }
}

/// Giving up a frame keeps the arena well formed, and leaves the frames
/// that last and the chain of the current frame as they were.
pub proof fn lemma_release_wf(env: EnvModel, frame: nat)
    requires
        env.wf(),
    ensures
        env.release(frame).wf(),
        env.release(frame).lasting() == env.lasting(),
        env.release(frame).depth() == env.depth(),
        extends(env.release(frame).links, env.links),
{
    let after = env.release(frame);
    assert(after.lasting() =~= env.lasting());
    assert(extends(after.links, env.links));
    lemma_hops_extends(after.links, env.links, env.current);
    assert forall|i: int, k: Seq<char>|
        0 <= i < after.scopes.len() && (#[trigger] after.scopes[i].contains_key(k)) implies value_ok(
        after.scopes[i][k],
        after.lasting(),
    ) by {
        assert(env.scopes[i].contains_key(k));
    }
}

/// One frame: its bindings and the frame that encloses it.
struct Frame {
    values: StringHashMap<LiteralValue>,
    enclosing: Option<usize>,
}

impl Frame {
    spec fn bindings(&self) -> Map<Seq<char>, ValueModel> {
        self.values@.map_values(|v: LiteralValue| v@)
    }

    spec fn link(&self) -> Option<nat> {
        match self.enclosing {
            Some(p) => Some(p as nat),
            None => None,
        }
    }
}

/// The arena of scope frames together with the frame that is current.
pub struct Environment {
    frames: Vec<Frame>,
    current: usize,
    captured: usize,
}

impl View for Environment {
    type V = EnvModel;

    closed spec fn view(&self) -> EnvModel {
        EnvModel {
            scopes: Seq::new(self.frames.len() as nat, |i: int| self.frames[i].bindings()),
            links: Seq::new(self.frames.len() as nat, |i: int| self.frames[i].link()),
            current: self.current as nat,
            captured: self.captured as nat,
        }
    }
}

impl Environment {
    /// An arena with one root frame, which binds the built-in functions, as
    /// the current frame.
    pub fn new() -> (r: Environment)
        ensures
            r@.wf(),
            r@.scopes == seq![globals()],
            r@.links == seq![None::<nat>],
            r@.current == 0,
            r@.captured == 0,
    {
        let mut values: StringHashMap<LiteralValue> = StringHashMap::new();
        values.insert(
            String::from_str("clock"),
            LiteralValue::Callable {
                name: String::from_str("clock"),
                arity: 0,
                fun: Function::Clock,
            },
        );
        let mut frames: Vec<Frame> = Vec::new();
        frames.push(Frame { values, enclosing: None });
        let r = Environment { frames, current: 0, captured: 0 };
        proof {
            assert(r.frames[0].bindings() =~= globals());
            assert(r@.scopes =~= seq![globals()]);
            assert(r@.links =~= seq![None::<nat>]);
        }
        r
    }

    /// Index of the current frame.
    pub fn current(&self) -> (r: usize)
        ensures
            r == self@.current,
    {
        self.current
    }

    /// Number of enclosing links between the current frame and its root: the
    /// greatest distance that a lookup may be given.
    pub fn depth(&self) -> (r: usize)
        requires
            self@.chained(),
        ensures
            r == self@.depth(),
    {
        let ghost env = self@;
        let mut index = self.current;
        let mut count: usize = 0;
        loop
            invariant
                env == self@,
                env.chained(),
                index < env.links.len(),
                count + hops(env.links, index as nat) == hops(env.links, env.current),
                count + index <= env.current,
            decreases index,
        {
            assert(env.links[index as int] == self.frames[index as int].link());
            match self.frames[index].enclosing {
                Some(p) => {
                    index = p;
                    count = count + 1;
                },
                None => {
                    return count;
                },
            }
        }
    }

    /// Number of frames in the arena.
    pub fn frame_count(&self) -> (r: usize)
        ensures
            r == self@.links.len(),
    {
        self.frames.len()
    }

    /// Number of frames that last.
    pub fn captured(&self) -> (r: usize)
        ensures
            r == self@.captured,
    {
        self.captured
    }

    /// Notes that a function is declared in the current frame: the frames up
    /// to the current one last from now on.
    pub fn capture(&mut self)
        requires
            old(self)@.wf(),
        ensures
            final(self)@ == old(self)@.capture(),
            final(self)@.wf(),
    {
        proof {
            lemma_capture_wf(self@);
        }
        if self.captured <= self.current {
            self.captured = self.current + 1;
        }
    }

    /// Gives up frame `frame`: removes it when it is the newest frame, does
    /// not last and lies behind the current frame.
    pub fn release(&mut self, frame: usize)
        requires
            old(self)@.wf(),
        ensures
            final(self)@ == old(self)@.release(frame as nat),
            final(self)@.wf(),
    {
        proof {
            lemma_release_wf(self@, frame as nat);
        }
        if frame < usize::MAX && frame + 1 == self.frames.len() && self.captured <= frame
            && self.current < frame {
            let _ = self.frames.pop();
            proof {
                assert(self@.scopes =~= old(self)@.release(frame as nat).scopes);
                assert(self@.links =~= old(self)@.release(frame as nat).links);
            }
        }
    }

    /// Makes `frame` the current frame.
    pub fn enter(&mut self, frame: usize)
        requires
            old(self)@.wf(),
            frame < old(self)@.links.len(),
        ensures
            final(self)@ == old(self)@.enter(frame as nat),
            final(self)@.wf(),
    {
        self.current = frame;
    }

    /// Makes a new, empty frame inside the current one and makes it current.
    pub fn enclose(&mut self)
        requires
            old(self)@.wf(),
        ensures
            final(self)@ == old(self)@.enclose(),
            final(self)@.wf(),
            final(self)@.depth() == old(self)@.depth() + 1,
    {
        let parent = self.current;
        let index = self.frames.len();
        self.frames.push(Frame { values: StringHashMap::new(), enclosing: Some(parent) });
        self.current = index;
        proof {
            assert(self.frames[index as int].bindings() =~= Map::empty());
            assert(self@.scopes =~= old(self)@.enclose().scopes);
            assert(self@.links =~= old(self)@.enclose().links);
            lemma_enclose_wf(old(self)@);
        }
    }

    /// Binds `name` to `value` in the current frame, over any binding that
    /// the frame already has for it.
    pub fn define(&mut self, name: String, value: LiteralValue)
        requires
            old(self)@.wf(),
            old(self)@.admits(value@),
        ensures
            final(self)@ == old(self)@.define(name@, value@),
            final(self)@.wf(),
    {
        let current = self.current;
        self.store(current, name, value);
    }

    /// Binds `name` to `value` in frame `f`.
    fn store(&mut self, f: usize, name: String, value: LiteralValue)
        requires
            old(self)@.wf(),
            old(self)@.admits(value@),
            f < old(self)@.scopes.len(),
        ensures
            final(self)@ == old(self)@.bind(f as nat, name@, value@),
            final(self)@.wf(),
    {
        self.frames[f].values.insert(name, value);
        proof {
            let before = old(self)@;
            assert(self.frames[f as int].bindings() =~= before.scopes[f as int].insert(
                name@,
                value@,
            ));
            assert(self@.scopes =~= before.bind(f as nat, name@, value@).scopes);
            assert(self@.links =~= before.links);
            lemma_bind_wf(before, f as nat, name@, value@);
        }
    }

    /// The frame that a lookup of `name` by `distance` reads, if there is
    /// one.
    fn locate(&self, name: &str, distance: Option<usize>) -> (r: Option<usize>)
        requires
            self@.chained(),
            self@.reaches(distance),
        ensures
            match r {
                Some(f) => self@.target(name@, distance) == Some(f as nat) && f < self@.scopes.len(),
                None => self@.target(name@, distance) is None,
            },
    {
        let ghost env = self@;
        match distance {
            Some(d) => {
                let mut index = self.current;
                let mut left = d;
                while left > 0
                    invariant
                        env == self@,
                        env.chained(),
                        index < env.links.len(),
                        left <= hops(env.links, index as nat),
                        ancestor(env.links, index as nat, left as nat) == ancestor(
                            env.links,
                            env.current,
                            d as nat,
                        ),
                    decreases left,
                {
                    match self.frames[index].enclosing {
                        Some(p) => {
                            index = p;
                        },
                        None => {},
                    }
                    left = left - 1;
                }
                Some(index)
            },
            None => {
                let mut index = self.current;
                loop
                    invariant
                        env == self@,
                        env.chained(),
                        distance is None,
                        index < env.links.len(),
                        holder(env.scopes, env.links, index as nat, name@) == holder(
                            env.scopes,
                            env.links,
                            env.current,
                            name@,
                        ),
                    decreases index,
                {
                    assert(env.scopes[index as int] == self.frames[index as int].bindings());
                    assert(env.links[index as int] == self.frames[index as int].link());
                    if self.frames[index].values.contains_key(name) {
                        return Some(index);
                    }
                    match self.frames[index].enclosing {
                        Some(p) => {
                            index = p;
                        },
                        None => {
                            return None;
                        },
                    }
                }
            },
        }
    }

    /// Looks `name` up. Without a distance the frames are searched from the
    /// current one toward the root and the first binding found is returned.
    /// With a distance exactly that many links are followed and only the
    /// frame reached is read.
    pub fn get(&self, name: &str, distance: Option<usize>) -> (r: Option<LiteralValue>)
        requires
            self@.chained(),
            self@.reaches(distance),
        ensures
            value_option_view(r) == self@.get(name@, distance),
    {
        match self.locate(name, distance) {
            Some(f) => match self.frames[f].values.get(name) {
                Some(v) => Some(v.clone()),
                None => None,
            },
            None => None,
        }
    }

    /// Assigns `value` to `name` and says whether it did. With a distance
    /// the frame that many links up is written whatever it holds. Without
    /// one the first frame toward the root that binds `name` is written, and
    /// nothing changes when no frame binds it.
    pub fn assign(&mut self, name: &str, value: LiteralValue, distance: Option<usize>) -> (r: bool)
        requires
            old(self)@.wf(),
            old(self)@.admits(value@),
            old(self)@.reaches(distance),
        ensures
            r == old(self)@.assigns(name@, distance),
            final(self)@ == old(self)@.assign(name@, value@, distance),
            final(self)@.wf(),
    {
        match self.locate(name, distance) {
            Some(f) => {
                self.store(f, String::from_str(name), value);
                true
            },
            None => false,
        }
    }
}

} // verus!
