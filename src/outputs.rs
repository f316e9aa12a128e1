use vstd::prelude::*;

verus! {

/// One physical display, filled in by property events after it is announced.
/// `H` is the handle of the display-server object it stands for.
#[derive(Debug)]
pub struct Output<H> {
    pub name: String,
    pub description: String,
    pub width: i32,
    pub height: i32,
    /// In mHz.
    pub refresh: i32,
    pub x: i32,
    pub y: i32,
    pub scale: i32,
    pub wl_output: H,
    pub global_name: u32,
    /// A non-empty name from the output-geometry extension has been applied;
    /// base name events no longer replace it.
    pub xdg_named: bool,
}

impl<H> Output<H> {
    /// An output announced under `global_name`, before any property event.
    pub open spec fn announced(global_name: u32, wl_output: H, o: Output<H>) -> bool {
        &&& o.name@ == Seq::<char>::empty()
        &&& o.description@ == Seq::<char>::empty()
        &&& o.width == 0 && o.height == 0 && o.refresh == 0
        &&& o.x == 0 && o.y == 0
        &&& o.scale == 1
        &&& o.wl_output == wl_output
        &&& o.global_name == global_name
        &&& !o.xdg_named
    }

    pub fn new(global_name: u32, wl_output: H) -> (r: Output<H>)
        ensures
            Output::announced(global_name, wl_output, r),
    {
        Output {
            name: String::new(),
            description: String::new(),
            width: 0,
            height: 0,
            refresh: 0,
            x: 0,
            y: 0,
            scale: 1,
            wl_output,
            global_name,
            xdg_named: false,
        }
    }

    /// The output after a property event.
    pub open spec fn updated(self, ev: OutputEvent) -> Output<H> {
        match ev {
            OutputEvent::Mode { current, width, height, refresh } => if current {
                Output { width, height, refresh, ..self }
            } else {
                self
            },
            OutputEvent::Scale { factor } => Output { scale: factor, ..self },
            OutputEvent::Name { name } => if self.xdg_named {
                self
            } else {
                Output { name, ..self }
            },
            OutputEvent::Description { description } => Output { description, ..self },
            OutputEvent::LogicalPosition { x, y } => Output { x, y, ..self },
            OutputEvent::XdgName { name } => if name@.len() == 0 {
                self
            } else {
                Output { name, xdg_named: true, ..self }
            },
        }
    }

    fn apply(&mut self, ev: OutputEvent)
        ensures
            *final(self) == old(self).updated(ev),
    {
        match ev {
            OutputEvent::Mode { current, width, height, refresh } => {
                if current {
                    self.width = width;
                    self.height = height;
                    self.refresh = refresh;
                }
            },
            OutputEvent::Scale { factor } => {
                self.scale = factor;
            },
            OutputEvent::Name { name } => {
                if !self.xdg_named {
                    self.name = name;
                }
            },
            OutputEvent::Description { description } => {
                self.description = description;
            },
            OutputEvent::LogicalPosition { x, y } => {
                self.x = x;
                self.y = y;
            },
            OutputEvent::XdgName { name } => {
                if !name.as_str().is_empty() {
                    self.name = name;
                    self.xdg_named = true;
                }
            },
        }
    }
}

/// A property notification about one output, from the base output protocol
/// or from the output-geometry extension.
pub enum OutputEvent {
    /// A display mode; only the current one is recorded.
    Mode { current: bool, width: i32, height: i32, refresh: i32 },
    Scale { factor: i32 },
    Name { name: String },
    Description { description: String },
    /// The extension's logical position.
    LogicalPosition { x: i32, y: i32 },
    /// The extension's name: authoritative, unless empty, whichever of the
    /// two names arrives first.
    XdgName { name: String },
}

/// The index of the first output in `outs` named `name`.
pub open spec fn position_named<H>(outs: Seq<Output<H>>, name: Seq<char>) -> Option<int>
    decreases outs.len(),
{
    if outs.len() == 0 {
        None
    } else {
        match position_named(outs.drop_last(), name) {
            Some(i) => Some(i),
            None => if outs.last().name@ == name {
                Some(outs.len() - 1)
            } else {
                None
            },
        }
    }
}

/// The index of the output announced under `global_name`.
pub open spec fn position_of<H>(outs: Seq<Output<H>>, global_name: u32) -> Option<int>
    decreases outs.len(),
{
    if outs.len() == 0 {
        None
    } else {
        match position_of(outs.drop_last(), global_name) {
            Some(i) => Some(i),
            None => if outs.last().global_name == global_name {
                Some(outs.len() - 1)
            } else {
                None
            },
        }
    }
}

/// The known outputs, in the order they were announced.
pub struct OutputManager<H> {
    outputs: Vec<Output<H>>,
}

impl<H> View for OutputManager<H> {
    type V = Seq<Output<H>>;

    closed spec fn view(&self) -> Seq<Output<H>> {
        self.outputs@
    }
}

/// No two outputs share a global name.
pub open spec fn unique_ids<H>(outs: Seq<Output<H>>) -> bool {
    forall|i: int, j: int|
        0 <= i < j < outs.len() ==> (#[trigger] outs[i]).global_name != (#[trigger] outs[j]).global_name
}

/// The registry after the output `global_name` is announced: a fresh entry,
/// replacing any earlier one under that name.
pub open spec fn with_added<H>(outs: Seq<Output<H>>, o: Output<H>) -> Seq<Output<H>> {
    match position_of(outs, o.global_name) {
        Some(i) => outs.update(i, o),
        None => outs.push(o),
    }
}

/// The registry after a property event for `global_name`; events for
/// unknown outputs are ignored.
pub open spec fn with_event<H>(outs: Seq<Output<H>>, global_name: u32, ev: OutputEvent) -> Seq<
    Output<H>,
> {
    match position_of(outs, global_name) {
        Some(i) => outs.update(i, outs[i].updated(ev)),
        None => outs,
    }
}

pub proof fn lemma_position_of<H>(outs: Seq<Output<H>>, global_name: u32)
    ensures
        match position_of(outs, global_name) {
            Some(i) => 0 <= i < outs.len() && outs[i].global_name == global_name,
            None => forall|j: int|
                0 <= j < outs.len() ==> (#[trigger] outs[j]).global_name != global_name,
        },
    decreases outs.len(),
{
    if outs.len() > 0 {
        lemma_position_of(outs.drop_last(), global_name);
        assert forall|j: int| 0 <= j < outs.len() - 1 implies outs[j] == outs.drop_last()[j] by {}
    }
}

impl<H> OutputManager<H> {
    pub fn new() -> (r: OutputManager<H>)
        ensures
            r@ == Seq::<Output<H>>::empty(),
    {
        OutputManager { outputs: Vec::new() }
    }

    fn find_id(&self, global_name: u32) -> (r: Option<usize>)
        ensures
            match r {
                Some(i) => position_of(self@, global_name) == Some(i as int),
                None => position_of(self@, global_name) is None,
            },
    {
        let mut i: usize = 0;
        while i < self.outputs.len()
            invariant
                i <= self.outputs@.len(),
                position_of(self.outputs@.take(i as int), global_name) is None,
            decreases self.outputs@.len() - i,
        {
            assert(self.outputs@.take(i as int + 1).drop_last() =~= self.outputs@.take(i as int));
            if self.outputs[i].global_name == global_name {
                proof {
                    lemma_prefix_position_of(self.outputs@, i as int + 1, global_name);
                }
                return Some(i);
            }
            i = i + 1;
        }
        assert(self.outputs@.take(i as int) =~= self.outputs@);
        None
    }

    /// Registers an output announced under `global_name`, with empty
    /// properties; an earlier entry under that name is replaced.
    pub fn add_output(&mut self, global_name: u32, wl_output: H)
        ensures
            exists|o: Output<H>|
                Output::announced(global_name, wl_output, o) && final(self)@ == with_added(
                    old(self)@,
                    o,
                ),
            unique_ids(old(self)@) ==> unique_ids(final(self)@),
    {
        let o = Output::new(global_name, wl_output);
        let pos = self.find_id(global_name);
        proof {
            lemma_position_of(self@, global_name);
        }
        match pos {
            Some(i) => {
                self.outputs.set(i, o);
            },
            None => {
                self.outputs.push(o);
            },
        }
    }

    /// Applies a property event to the output announced under
    /// `global_name`, if there is one.
    pub fn handle_event(&mut self, global_name: u32, ev: OutputEvent)
        ensures
            final(self)@ == with_event(old(self)@, global_name, ev),
            unique_ids(old(self)@) ==> unique_ids(final(self)@),
    {
        let pos = self.find_id(global_name);
        proof {
            lemma_position_of(self@, global_name);
        }
        match pos {
            Some(i) => {
                let mut o = self.outputs.remove(i);
                o.apply(ev);
                self.outputs.insert(i, o);
                proof {
                    assert(self.outputs@ =~= with_event(old(self)@, global_name, ev));
                }
            },
            None => {},
        }
    }

    /// The first output named exactly `name`.
    pub fn get_by_name(&self, name: &str) -> (r: Option<&Output<H>>)
        ensures
            match position_named(self@, name@) {
                Some(i) => r == Some(&self@[i]),
                None => r is None,
            },
    {
        let wanted = name.to_owned();
        let mut i: usize = 0;
        while i < self.outputs.len()
            invariant
                i <= self.outputs@.len(),
                wanted@ == name@,
                position_named(self.outputs@.take(i as int), name@) is None,
            decreases self.outputs@.len() - i,
        {
            assert(self.outputs@.take(i as int + 1).drop_last() =~= self.outputs@.take(i as int));
            if self.outputs[i].name == wanted {
                proof {
                    lemma_prefix_position_named(self.outputs@, i as int + 1, name@);
                }
                return Some(&self.outputs[i]);
            }
            i = i + 1;
        }
        assert(self.outputs@.take(i as int) =~= self.outputs@);
        None
    }

    /// Every known output, in the order they were announced.
    pub fn list(&self) -> (r: Vec<&Output<H>>)
        ensures
            r@.len() == self@.len(),
            forall|i: int| 0 <= i < r@.len() ==> *r@[i] == self@[i],
    {
        let mut r: Vec<&Output<H>> = Vec::new();
        let mut i: usize = 0;
        while i < self.outputs.len()
            invariant
                i <= self.outputs@.len(),
                r@.len() == i,
                forall|j: int| 0 <= j < i ==> *r@[j] == self.outputs@[j],
            decreases self.outputs@.len() - i,
        {
            r.push(&self.outputs[i]);
            i = i + 1;
        }
        r
    }
}

/// The outputs of `outs` not named `source`, in order.
pub open spec fn others<H>(outs: Seq<Output<H>>, source: Seq<char>) -> Seq<Output<H>>
    decreases outs.len(),
{
    if outs.len() == 0 {
        Seq::empty()
    } else if outs.last().name@ == source {
        others(outs.drop_last(), source)
    } else {
        others(outs.drop_last(), source).push(outs.last())
    }
}

/// For each name of `to` in turn, the first output so named, if any.
pub open spec fn named<H>(outs: Seq<Output<H>>, to: Seq<Seq<char>>) -> Seq<Output<H>>
    decreases to.len(),
{
    if to.len() == 0 {
        Seq::empty()
    } else {
        match position_named(outs, to.last()) {
            Some(i) => named(outs, to.drop_last()).push(outs[i]),
            None => named(outs, to.drop_last()),
        }
    }
}

/// The destinations of a mirror of `source`: the outputs named in `to`,
/// or every other output when `to` is empty.
pub open spec fn targets<H>(outs: Seq<Output<H>>, source: Seq<char>, to: Seq<Seq<char>>) -> Seq<
    Output<H>,
> {
    if to.len() == 0 {
        others(outs, source)
    } else {
        named(outs, to)
    }
}

pub open spec fn names_of(to: Seq<String>) -> Seq<Seq<char>> {
    to.map_values(|s: String| s@)
}

pub open spec fn derefs<H>(r: Seq<&Output<H>>) -> Seq<Output<H>> {
    r.map_values(|o: &Output<H>| *o)
}

/// The name of an output follows the extension's name, whatever the order:
/// a non-empty extension name replaces the base name, and a base name that
/// arrives after it does not replace it; an empty extension name never
/// replaces a name.
pub proof fn lemma_name_precedence<H>(outs: Seq<Output<H>>, global_name: u32, base: String, ext: String)
    ensures
        ext@.len() == 0 ==> with_event(outs, global_name, OutputEvent::XdgName { name: ext })
            == outs,
        ext@.len() > 0 ==> match position_of(outs, global_name) {
            Some(i) => {
                &&& with_event(
                    with_event(outs, global_name, OutputEvent::Name { name: base }),
                    global_name,
                    OutputEvent::XdgName { name: ext },
                )[i].name == ext
                &&& with_event(
                    with_event(outs, global_name, OutputEvent::XdgName { name: ext }),
                    global_name,
                    OutputEvent::Name { name: base },
                )[i].name == ext
            },
            None => with_event(outs, global_name, OutputEvent::XdgName { name: ext }) == outs,
        },
{
    lemma_position_of(outs, global_name);
    match position_of(outs, global_name) {
        Some(i) => {
            if ext@.len() == 0 {
                assert(outs.update(i, outs[i]) =~= outs);
            } else {
                let a = with_event(outs, global_name, OutputEvent::Name { name: base });
                let b = with_event(outs, global_name, OutputEvent::XdgName { name: ext });
                lemma_update_keeps_position(outs, i, outs[i].updated(OutputEvent::Name { name: base }));
                lemma_update_keeps_position(outs, i, outs[i].updated(OutputEvent::XdgName { name: ext }));
                assert(position_of(a, global_name) == Some(i));
                assert(position_of(b, global_name) == Some(i));
            }
        },
        None => {},
    }
}

proof fn lemma_update_keeps_position<H>(outs: Seq<Output<H>>, i: int, o: Output<H>)
    requires
        0 <= i < outs.len(),
        o.global_name == outs[i].global_name,
    ensures
        position_of(outs.update(i, o), o.global_name) == position_of(outs, o.global_name),
    decreases outs.len(),
{
    let u = outs.update(i, o);
    if i < outs.len() - 1 {
        assert(u.drop_last() =~= outs.drop_last().update(i, o));
        lemma_update_keeps_position(outs.drop_last(), i, o);
        assert(u.last() == outs.last());
    } else {
        assert(u.drop_last() =~= outs.drop_last());
    }
}

impl<H> OutputManager<H> {
    /// The destinations for mirroring `source`: the outputs named in `to`,
    /// in that order, skipping names that no output has; or, when `to` is
    /// empty, every output not named `source`, in announcement order.
    pub fn select_targets(&self, source: &str, to: &Vec<String>) -> (r: Vec<&Output<H>>)
        ensures
            derefs(r@) == targets(self@, source@, names_of(to@)),
    {
        let mut r: Vec<&Output<H>> = Vec::new();
        if to.len() == 0 {
            let wanted = source.to_owned();
            let mut i: usize = 0;
            while i < self.outputs.len()
                invariant
                    i <= self.outputs@.len(),
                    wanted@ == source@,
                    derefs(r@) == others(self.outputs@.take(i as int), source@),
                decreases self.outputs@.len() - i,
            {
                assert(self.outputs@.take(i as int + 1).drop_last() =~= self.outputs@.take(
                    i as int,
                ));
                if !(self.outputs[i].name == wanted) {
                    r.push(&self.outputs[i]);
                    assert(derefs(r@) =~= others(self.outputs@.take(i as int + 1), source@));
                }
                i = i + 1;
            }
            assert(self.outputs@.take(i as int) =~= self.outputs@);
        } else {
            let mut k: usize = 0;
            while k < to.len()
                invariant
                    k <= to@.len(),
                    to@.len() > 0,
                    derefs(r@) == named(self@, names_of(to@).take(k as int)),
                decreases to@.len() - k,
            {
                assert(names_of(to@).take(k as int + 1).drop_last() =~= names_of(to@).take(
                    k as int,
                ));
                assert(names_of(to@).take(k as int + 1).last() == to@[k as int]@);
                match self.get_by_name(to[k].as_str()) {
                    Some(o) => {
                        r.push(o);
                        assert(derefs(r@) =~= named(self@, names_of(to@).take(k as int + 1)));
                    },
                    None => {},
                }
                k = k + 1;
            }
            assert(names_of(to@).take(k as int) =~= names_of(to@));
        }
        r
    }
}

proof fn lemma_prefix_position_of<H>(outs: Seq<Output<H>>, n: int, global_name: u32)
    requires
        0 < n <= outs.len(),
        position_of(outs.take(n - 1), global_name) is None,
        outs[n - 1].global_name == global_name,
    ensures
        position_of(outs, global_name) == Some(n - 1),
    decreases outs.len(),
{
    assert(outs.take(n).drop_last() =~= outs.take(n - 1));
    if n < outs.len() {
        assert(outs.drop_last().take(n) =~= outs.take(n));
        assert(outs.drop_last().take(n - 1) =~= outs.take(n - 1));
        lemma_prefix_position_of(outs.drop_last(), n, global_name);
    } else {
        assert(outs.take(n) =~= outs);
    }
}

proof fn lemma_prefix_position_named<H>(outs: Seq<Output<H>>, n: int, name: Seq<char>)
    requires
        0 < n <= outs.len(),
        position_named(outs.take(n - 1), name) is None,
        outs[n - 1].name@ == name,
    ensures
        position_named(outs, name) == Some(n - 1),
    decreases outs.len(),
{
    assert(outs.take(n).drop_last() =~= outs.take(n - 1));
    if n < outs.len() {
        assert(outs.drop_last().take(n) =~= outs.take(n));
        assert(outs.drop_last().take(n - 1) =~= outs.take(n - 1));
        lemma_prefix_position_named(outs.drop_last(), n, name);
    } else {
        assert(outs.take(n) =~= outs);
    }
}

} // verus!
