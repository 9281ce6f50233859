//! Sources and their line buffers.
//!
//! A source is a named, append-only sequence of lines. A readable source is
//! fed by a stream of its own and passes every line on to the sources that
//! listen to it. An aggregate source has no stream: all its lines reach it
//! that way, in the order in which they arrive.

use vstd::prelude::*;
use crate::reader::LineReader;

verus! {

/// What a source is asked to do.
pub trait Source {
    /// The name of the source.
    spec fn name(&self) -> Seq<char>;

    /// The lines gathered so far, oldest first.
    spec fn lines(&self) -> Seq<Seq<char>>;

    /// The sources that receive a copy of every line, by their place in the
    /// set that holds them all.
    spec fn listeners(&self) -> Seq<usize>;

    /// Whether other sources can listen to this one.
    spec fn takes_listeners(&self) -> bool;

    /// The name of the source.
    fn get_name(&self) -> (r: &str)
        ensures
            r@ == self.name(),
    ;

    /// The lines gathered so far, oldest first.
    fn get_lines(&self) -> (r: &Vec<String>)
        ensures
            r.deep_view() == self.lines(),
    ;

    /// Appends a line to the buffer of this source. Lines already there keep
    /// their place and their text.
    fn add_line(&mut self, line: String) -> (r: Result<(), String>)
        ensures
            r is Ok,
            final(self).lines() == old(self).lines().push(line@),
            final(self).name() == old(self).name(),
            final(self).listeners() == old(self).listeners(),
            final(self).takes_listeners() == old(self).takes_listeners(),
    ;

    /// Registers a listener. Only a source that takes listeners accepts one;
    /// a listener that is already registered is not registered again.
    fn add_listener(&mut self, listener: usize) -> (r: Result<(), String>)
        ensures
            r is Ok <==> old(self).takes_listeners(),
            r is Ok ==> final(self).listeners() == with_listener(old(self).listeners(), listener),
            r is Err ==> final(self).listeners() == old(self).listeners(),
            r matches Err(message) ==> message@ == refusal()@,
            final(self).lines() == old(self).lines(),
            final(self).name() == old(self).name(),
            final(self).takes_listeners() == old(self).takes_listeners(),
    ;
}

/// A list of listeners after one has been registered: it is added at the end
/// unless it is on the list already.
pub open spec fn with_listener(listeners: Seq<usize>, listener: usize) -> Seq<usize> {
    if listeners.contains(listener) {
        listeners
    } else {
        listeners.push(listener)
    }
}

/// What a source answers when it is asked to take a listener and cannot.
pub open spec fn refusal() -> &'static str {
    "This source does not support listeners"
}

/// A source without a stream of its own.
pub struct AggregateSource {
    name: String,
    lines: Vec<String>,
}

impl AggregateSource {
    /// An empty source of the given name.
    pub fn new(name: String) -> (r: Self)
        ensures
            r.name() == name@,
            r.lines() == Seq::<Seq<char>>::empty(),
    {
        let r = AggregateSource { name, lines: Vec::new() };
        assert(r.lines.deep_view() =~= Seq::<Seq<char>>::empty());
        r
    }
}

impl Source for AggregateSource {
    closed spec fn name(&self) -> Seq<char> {
        self.name@
    }

    closed spec fn lines(&self) -> Seq<Seq<char>> {
        self.lines.deep_view()
    }

    open spec fn listeners(&self) -> Seq<usize> {
        Seq::empty()
    }

    open spec fn takes_listeners(&self) -> bool {
        false
    }

    fn get_name(&self) -> (r: &str) {
        self.name.as_str()
    }

    fn get_lines(&self) -> (r: &Vec<String>) {
        &self.lines
    }

    fn add_line(&mut self, line: String) -> (r: Result<(), String>) {
        self.lines.push(line);
        assert(self.lines.deep_view() =~= old(self).lines.deep_view().push(line@));
        Ok(())
    }

    fn add_listener(&mut self, listener: usize) -> (r: Result<(), String>) {
        Err(String::from_str("This source does not support listeners"))
    }
}

/// A source with a stream of its own.
pub struct ReadableSource<R> {
    name: String,
    reader: Option<R>,
    lines: Vec<String>,
    listeners: Vec<usize>,
}

impl<R: LineReader> ReadableSource<R> {
    /// An empty source of the given name that owns `reader` until an
    /// ingestion unit takes it.
    pub fn new(name: String, reader: R) -> (r: Self)
        ensures
            r.name() == name@,
            r.lines() == Seq::<Seq<char>>::empty(),
            r.listeners() == Seq::<usize>::empty(),
            r.reader() == Some(reader),
    {
        let r = ReadableSource {
            name,
            reader: Some(reader),
            lines: Vec::new(),
            listeners: Vec::new(),
        };
        assert(r.lines.deep_view() =~= Seq::<Seq<char>>::empty());
        r
    }

    /// The stream of this source, until it is taken.
    pub closed spec fn reader(&self) -> Option<R> {
        self.reader
    }

    /// Hands the stream over to the unit that will read from it. The stream
    /// has one owner at a time, so it can be taken once.
    pub fn take_reader(&mut self) -> (r: Option<R>)
        ensures
            r == old(self).reader(),
            final(self).reader() is None,
            final(self).name() == old(self).name(),
            final(self).lines() == old(self).lines(),
            final(self).listeners() == old(self).listeners(),
    {
        self.reader.take()
    }
}

impl<R: LineReader> Source for ReadableSource<R> {
    closed spec fn name(&self) -> Seq<char> {
        self.name@
    }

    closed spec fn lines(&self) -> Seq<Seq<char>> {
        self.lines.deep_view()
    }

    closed spec fn listeners(&self) -> Seq<usize> {
        self.listeners@
    }

    open spec fn takes_listeners(&self) -> bool {
        true
    }

    fn get_name(&self) -> (r: &str) {
        self.name.as_str()
    }

    fn get_lines(&self) -> (r: &Vec<String>) {
        &self.lines
    }

    fn add_line(&mut self, line: String) -> (r: Result<(), String>)
        ensures
            final(self).reader() == old(self).reader(),
    {
        self.lines.push(line);
        assert(self.lines.deep_view() =~= old(self).lines.deep_view().push(line@));
        Ok(())
    }

    fn add_listener(&mut self, listener: usize) -> (r: Result<(), String>)
        ensures
            final(self).reader() == old(self).reader(),
    {
        let mut known: bool = false;
        let mut i: usize = 0;
        while i < self.listeners.len()
            invariant
                i <= self.listeners.len(),
                known == self.listeners@.take(i as int).contains(listener),
                *self == *old(self),
            decreases self.listeners.len() - i,
        {
            proof {
                let seen = self.listeners@.take(i as int);
                let next = self.listeners@.take(i + 1);
                assert(next =~= seen.push(self.listeners@[i as int]));
                if seen.contains(listener) {
                    let k = choose|k: int| 0 <= k < seen.len() && seen[k] == listener;
                    assert(next[k] == listener);
                }
                if self.listeners@[i as int] == listener {
                    assert(next[i as int] == listener);
                }
            }
            if self.listeners[i] == listener {
                known = true;
            }
            i = i + 1;
        }
        assert(self.listeners@.take(i as int) =~= self.listeners@);
        if !known {
            self.listeners.push(listener);
        }
        Ok(())
    }
}

/// Either kind of source.
pub enum AnySource<R> {
    Readable(ReadableSource<R>),
    Aggregate(AggregateSource),
}

impl<R: LineReader> AnySource<R> {
    /// Whether the source has a stream of its own.
    pub open spec fn readable(&self) -> bool {
        self is Readable
    }

    /// The stream of the source, if it has one that has not been taken.
    pub open spec fn stream(&self) -> Option<R> {
        match self {
            AnySource::Readable(source) => source.reader(),
            AnySource::Aggregate(_) => None,
        }
    }

    /// The source as the contracts of a set see it.
    pub open spec fn seen(&self) -> SourceView {
        SourceView {
            name: self.name(),
            lines: self.lines(),
            listeners: self.listeners(),
            readable: self.readable(),
        }
    }

    /// Number of listeners of this source.
    pub fn listener_count(&self) -> (r: usize)
        ensures
            r == self.listeners().len(),
    {
        match self {
            AnySource::Readable(source) => source.listeners.len(),
            AnySource::Aggregate(_) => 0,
        }
    }

    /// The listener registered in place `k`.
    pub fn listener_at(&self, k: usize) -> (r: usize)
        requires
            k < self.listeners().len(),
        ensures
            r == self.listeners()[k as int],
    {
        match self {
            AnySource::Readable(source) => source.listeners[k],
            AnySource::Aggregate(_) => 0,
        }
    }

    /// Tells whether the source has a stream of its own.
    pub fn is_readable(&self) -> (r: bool)
        ensures
            r == self.readable(),
    {
        match self {
            AnySource::Readable(_) => true,
            AnySource::Aggregate(_) => false,
        }
    }
}

impl<R: LineReader> Source for AnySource<R> {
    open spec fn name(&self) -> Seq<char> {
        match self {
            AnySource::Readable(source) => source.name(),
            AnySource::Aggregate(source) => source.name(),
        }
    }

    open spec fn lines(&self) -> Seq<Seq<char>> {
        match self {
            AnySource::Readable(source) => source.lines(),
            AnySource::Aggregate(source) => source.lines(),
        }
    }

    open spec fn listeners(&self) -> Seq<usize> {
        match self {
            AnySource::Readable(source) => source.listeners(),
            AnySource::Aggregate(source) => source.listeners(),
        }
    }

    open spec fn takes_listeners(&self) -> bool {
        self is Readable
    }

    fn get_name(&self) -> (r: &str) {
        match self {
            AnySource::Readable(source) => source.get_name(),
            AnySource::Aggregate(source) => source.get_name(),
        }
    }

    fn get_lines(&self) -> (r: &Vec<String>) {
        match self {
            AnySource::Readable(source) => source.get_lines(),
            AnySource::Aggregate(source) => source.get_lines(),
        }
    }

    fn add_line(&mut self, line: String) -> (r: Result<(), String>)
        ensures
            final(self).stream() == old(self).stream(),
    {
        match self {
            AnySource::Readable(source) => source.add_line(line),
            AnySource::Aggregate(source) => source.add_line(line),
        }
    }

    fn add_listener(&mut self, listener: usize) -> (r: Result<(), String>)
        ensures
            final(self).stream() == old(self).stream(),
    {
        match self {
            AnySource::Readable(source) => source.add_listener(listener),
            AnySource::Aggregate(source) => source.add_listener(listener),
        }
    }
}

/// Why the set of sources turned a request down.
#[derive(Clone, Copy, Debug, PartialEq, Eq, Structural)]
pub enum SourceError {
    /// No source stands at the given place.
    UnknownSource,
    /// The source has no stream of its own, so nothing can listen to it.
    ListenersUnsupported,
    /// The listener has a stream of its own; only an aggregate listens.
    ListenerHasReader,
    /// There is no source to show.
    NoSources,
}

/// A source as the contracts see it.
pub ghost struct SourceView {
    pub name: Seq<char>,
    pub lines: Seq<Seq<char>>,
    pub listeners: Seq<usize>,
    pub readable: bool,
}

/// Whether a line appended to `source` lands in the buffer of `target`.
pub open spec fn receives(sources: Seq<SourceView>, source: int, target: int) -> bool {
    target == source || sources[source].listeners.contains(target as usize)
}

/// The listeners of source `i` are in order: each is an aggregate of the set,
/// none is listed twice, and an aggregate has none.
pub open spec fn listeners_in_order(sources: Seq<SourceView>, i: int) -> bool {
    &&& sources[i].listeners.no_duplicates()
    &&& !sources[i].readable ==> sources[i].listeners.len() == 0
    &&& forall|k: int|
        0 <= k < sources[i].listeners.len() ==> {
            &&& (#[trigger] sources[i].listeners[k]) < sources.len()
            &&& !sources[sources[i].listeners[k] as int].readable
        }
}

/// The sources after `line` has been appended to `source`: the source itself
/// and each of its listeners hold one line more, at their end; every other
/// buffer is as it was.
pub open spec fn after_append(sources: Seq<SourceView>, source: int, line: Seq<char>) -> Seq<
    SourceView,
> {
    Seq::new(
        sources.len(),
        |j: int|
            if receives(sources, source, j) {
                SourceView { lines: sources[j].lines.push(line), ..sources[j] }
            } else {
                sources[j]
            },
    )
}

/// The sources after `listener` has been registered with `source`.
pub open spec fn after_register(sources: Seq<SourceView>, source: int, listener: usize) -> Seq<
    SourceView,
> {
    sources.update(
        source,
        SourceView {
            listeners: with_listener(sources[source].listeners, listener),
            ..sources[source]
        },
    )
}

/// All the sources of a session, each known by its place in the set.
pub struct SourceSet<R> {
    sources: Vec<AnySource<R>>,
}

impl<R: LineReader> View for SourceSet<R> {
    type V = Seq<SourceView>;

    closed spec fn view(&self) -> Seq<SourceView> {
        Seq::new(self.sources@.len(), |i: int| self.sources@[i].seen())
    }
}

impl<R: LineReader> SourceSet<R> {
    /// Whether the listeners of every source are in order.
    pub open spec fn wf(&self) -> bool {
        forall|i: int| 0 <= i < self@.len() ==> #[trigger] listeners_in_order(self@, i)
    }

    /// The stream of each source; none for an aggregate, and none once it
    /// has been taken.
    pub closed spec fn readers(&self) -> Seq<Option<R>> {
        Seq::new(self.sources@.len(), |i: int| self.sources@[i].stream())
    }

    /// A set without sources.
    pub fn new() -> (r: Self)
        ensures
            r.wf(),
            r@.len() == 0,
            r.readers().len() == 0,
    {
        SourceSet { sources: Vec::new() }
    }

    /// Hands the stream of a source over to the unit that will read from it.
    /// There is none to hand over for an aggregate, for a place without a
    /// source, and after the stream has been taken.
    pub fn take_reader(&mut self, source: usize) -> (r: Option<R>)
        ensures
            final(self)@ == old(self)@,
            final(self).readers().len() == old(self).readers().len(),
            source < old(self)@.len() ==> r == old(self).readers()[source as int]
                && final(self).readers() == old(self).readers().update(source as int, None),
            source >= old(self)@.len() ==> r is None && final(self).readers() == old(
                self,
            ).readers(),
    {
        if source >= self.sources.len() {
            return None;
        }
        let taken: Option<R> = match &mut self.sources[source] {
            AnySource::Readable(readable) => readable.take_reader(),
            AnySource::Aggregate(_) => None,
        };
        proof {
            assert(self@ =~= old(self)@);
            assert(self.readers() =~= old(self).readers().update(source as int, None));
        }
        taken
    }

    /// Number of sources.
    pub fn len(&self) -> (r: usize)
        ensures
            r == self@.len(),
    {
        self.sources.len()
    }

    /// Adds a source and returns its place in the set.
    pub fn add(&mut self, source: AnySource<R>) -> (place: usize)
        requires
            old(self).wf(),
            source.listeners().len() == 0,
        ensures
            final(self).wf(),
            place == old(self)@.len(),
            final(self)@ == old(self)@.push(source.seen()),
            final(self).readers() == old(self).readers().push(source.stream()),
    {
        let place: usize = self.sources.len();
        self.sources.push(source);
        proof {
            assert(self@ =~= old(self)@.push(source.seen()));
            assert(self.readers() =~= old(self).readers().push(source.stream()));
            assert forall|i: int| 0 <= i < self@.len() implies #[trigger] listeners_in_order(
                self@,
                i,
            ) by {
                if i < place {
                    assert(listeners_in_order(old(self)@, i));
                    assert(self@[i] == old(self)@[i]);
                }
            }
        }
        place
    }

    /// The name of a source.
    pub fn name(&self, source: usize) -> (r: &str)
        requires
            source < self@.len(),
        ensures
            r@ == self@[source as int].name,
    {
        self.sources[source].get_name()
    }

    /// The lines of a source as they stand now. Lines are only ever added at
    /// the end, so what is read here stays true of the buffer.
    pub fn lines(&self, source: usize) -> (r: &Vec<String>)
        requires
            source < self@.len(),
        ensures
            r.deep_view() == self@[source as int].lines,
    {
        self.sources[source].get_lines()
    }

    /// Tells whether a line appended to `source` lands in `target`.
    pub fn feeds(&self, source: usize, target: usize) -> (r: bool)
        requires
            source < self@.len(),
        ensures
            r == receives(self@, source as int, target as int),
    {
        if source == target {
            return true;
        }
        let from = &self.sources[source];
        let count: usize = from.listener_count();
        let ghost listed = self@[source as int].listeners;
        let mut k: usize = 0;
        while k < count
            invariant
                k <= count,
                source != target,
                source < self@.len(),
                listed == self@[source as int].listeners,
                listed == from.listeners(),
                count == listed.len(),
                forall|j: int| 0 <= j < k ==> listed[j] != target,
            decreases count - k,
        {
            if from.listener_at(k) == target {
                assert(listed[k as int] == target);
                return true;
            }
            k = k + 1;
        }
        false
    }

    /// Registers `listener` with `source`: from now on every line appended to
    /// `source` is appended to `listener` too. The source has to be readable
    /// and the listener an aggregate.
    pub fn register_listener(&mut self, source: usize, listener: usize) -> (r: Result<
        (),
        SourceError,
    >)
        requires
            old(self).wf(),
        ensures
            final(self).wf(),
            r == registration(old(self)@, source, listener),
            r is Ok ==> final(self)@ == after_register(old(self)@, source as int, listener),
            r is Err ==> final(self)@ == old(self)@,
            final(self).readers() == old(self).readers(),
    {
        if source >= self.sources.len() || listener >= self.sources.len() {
            return Err(SourceError::UnknownSource);
        }
        if !self.sources[source].is_readable() {
            return Err(SourceError::ListenersUnsupported);
        }
        if self.sources[listener].is_readable() {
            return Err(SourceError::ListenerHasReader);
        }
        let ghost before = self@;
        let outcome = self.sources[source].add_listener(listener);
        proof {
            assert(outcome is Ok);
            assert(self@ =~= after_register(before, source as int, listener));
            assert(self.readers() =~= old(self).readers());
            assert forall|i: int| 0 <= i < self@.len() implies #[trigger] listeners_in_order(
                self@,
                i,
            ) by {
                assert(listeners_in_order(before, i));
                if i == source && !before[i].listeners.contains(listener) {
                    let now = self@[i].listeners;
                    assert forall|a: int, b: int|
                        0 <= a < now.len() && 0 <= b < now.len() && a != b implies now[a]
                        != now[b] by {
                        if a < before[i].listeners.len() && b < before[i].listeners.len() {
                            assert(before[i].listeners[a] != before[i].listeners[b]);
                        }
                    }
                    assert forall|k: int| 0 <= k < now.len() implies (#[trigger] now[k])
                        < self@.len() && !self@[now[k] as int].readable by {
                        if k < before[i].listeners.len() {
                            assert(now[k] == before[i].listeners[k]);
                        }
                    }
                } else {
                    assert(self@[i].listeners == before[i].listeners);
                }
            }
        }
        Ok(())
    }

    /// Appends a line to `source` and to each of its listeners. Every buffer
    /// receives the line whole, as its new last line.
    pub fn append(&mut self, source: usize, line: String) -> (r: Result<(), SourceError>)
        requires
            old(self).wf(),
        ensures
            final(self).wf(),
            source < old(self)@.len() ==> r is Ok && final(self)@ == after_append(
                old(self)@,
                source as int,
                line@,
            ),
            source >= old(self)@.len() ==> r == Err::<(), SourceError>(SourceError::UnknownSource)
                && final(self)@ == old(self)@,
            final(self).readers() == old(self).readers(),
    {
        if source >= self.sources.len() {
            return Err(SourceError::UnknownSource);
        }
        let ghost before = self@;
        let ghost targets = before[source as int].listeners;
        assert(listeners_in_order(before, source as int));
        let _ = self.sources[source].add_line(line.clone());
        assert(self.readers() =~= old(self).readers());
        let count: usize = self.sources[source].listener_count();
        let mut k: usize = 0;
        while k < count
            invariant
                k <= count,
                count == targets.len(),
                source < before.len(),
                before.len() <= usize::MAX,
                targets == before[source as int].listeners,
                listeners_in_order(before, source as int),
                self@.len() == before.len(),
                self.readers() == old(self).readers(),
                forall|j: int|
                    0 <= j < before.len() ==> #[trigger] self@[j] == if j == source
                        || targets.take(k as int).contains(j as usize) {
                        SourceView { lines: before[j].lines.push(line@), ..before[j] }
                    } else {
                        before[j]
                    },
            decreases count - k,
        {
            let ghost midway = self@;
            assert(midway[source as int].listeners == targets);
            let target: usize = self.sources[source].listener_at(k);
            proof {
                assert(target == targets[k as int]);
                assert(target < before.len() && !before[target as int].readable);
                assert(target != source);
                assert(!targets.take(k as int).contains(target)) by {
                    if targets.take(k as int).contains(target) {
                        let a = choose|a: int|
                            0 <= a < targets.take(k as int).len() && targets.take(k as int)[a]
                                == target;
                        assert(targets[a] == targets[k as int]);
                    }
                }
                assert(midway[target as int] == before[target as int]);
            }
            let _ = self.sources[target].add_line(line.clone());
            proof {
                assert(self.readers() =~= old(self).readers());
                let seen = targets.take(k as int);
                let next = targets.take(k + 1);
                assert(next =~= seen.push(target));
                assert forall|j: int| 0 <= j < before.len() implies #[trigger] self@[j] == if j
                    == source || next.contains(j as usize) {
                    SourceView { lines: before[j].lines.push(line@), ..before[j] }
                } else {
                    before[j]
                } by {
                    if j == target {
                        assert(next[k as int] == target);
                    } else {
                        assert(self@[j] == midway[j]);
                        if seen.contains(j as usize) {
                            let a = choose|a: int| 0 <= a < seen.len() && seen[a] == j as usize;
                            assert(next[a] == j as usize);
                        }
                        if next.contains(j as usize) {
                            let a = choose|a: int| 0 <= a < next.len() && next[a] == j as usize;
                            assert(next[k as int] == target);
                            assert(j as usize == j);
                            assert(a < k);
                            assert(seen[a] == j as usize);
                        }
                    }
                }
            }
            k = k + 1;
        }
        proof {
            assert(targets.take(count as int) =~= targets);
            assert(self@ =~= after_append(before, source as int, line@));
            assert forall|i: int| 0 <= i < self@.len() implies #[trigger] listeners_in_order(
                self@,
                i,
            ) by {
                assert(listeners_in_order(before, i));
                assert(self@[i].listeners == before[i].listeners);
                let listed = self@[i].listeners;
                assert forall|k: int| 0 <= k < listed.len() implies (#[trigger] listed[k])
                    < self@.len() && !self@[listed[k] as int].readable by {
                    let l = before[i].listeners[k];
                    assert(self@[l as int].readable == before[l as int].readable);
                }
            }
        }
        Ok(())
    }
}

/// Whether a registration is accepted, and why not where it is not.
pub open spec fn registration(sources: Seq<SourceView>, source: usize, listener: usize) -> Result<
    (),
    SourceError,
> {
    if source >= sources.len() || listener >= sources.len() {
        Err(SourceError::UnknownSource)
    } else if !sources[source as int].readable {
        Err(SourceError::ListenersUnsupported)
    } else if sources[listener as int].readable {
        Err(SourceError::ListenerHasReader)
    } else {
        Ok(())
    }
}

/// The names that a list of named streams carries.
pub open spec fn names_of<R>(inputs: Seq<(String, R)>) -> Seq<Seq<char>> {
    Seq::new(inputs.len(), |i: int| inputs[i].0@)
}

/// A source that has not received anything yet.
pub open spec fn fresh(name: Seq<char>, listeners: Seq<usize>, readable: bool) -> SourceView {
    SourceView { name, lines: Seq::empty(), listeners, readable }
}

/// The sources of a session over streams of the given names. A single stream
/// is the only source. Several streams come after an aggregate named
/// `aggregate`, which stands first and listens to each of them.
pub open spec fn assembled(names: Seq<Seq<char>>) -> Seq<SourceView> {
    if names.len() <= 1 {
        Seq::new(names.len(), |i: int| fresh(names[i], Seq::empty(), true))
    } else {
        Seq::new(
            names.len() + 1,
            |i: int|
                if i == 0 {
                    fresh("aggregate"@, Seq::empty(), false)
                } else {
                    fresh(names[i - 1], seq![0usize], true)
                },
        )
    }
}

/// The streams of a session, each in the place of its source.
pub open spec fn assembled_readers<R>(inputs: Seq<(String, R)>) -> Seq<Option<R>> {
    if inputs.len() <= 1 {
        Seq::new(inputs.len(), |i: int| Some(inputs[i].1))
    } else {
        Seq::new(
            inputs.len() + 1,
            |i: int|
                if i == 0 {
                    None
                } else {
                    Some(inputs[i - 1].1)
                },
        )
    }
}

/// Builds the sources of a session from its named streams, in their order.
/// Without a stream there is nothing to show, which is an error.
pub fn assemble<R: LineReader>(inputs: Vec<(String, R)>) -> (r: Result<SourceSet<R>, SourceError>)
    ensures
        inputs.len() == 0 ==> r == Err::<SourceSet<R>, SourceError>(SourceError::NoSources),
        inputs.len() > 0 ==> r is Ok,
        r matches Ok(set) ==> set.wf() && set@ == assembled(names_of(inputs@)) && set.readers()
            == assembled_readers(inputs@),
{
    let mut rest: Vec<(String, R)> = inputs;
    let n: usize = rest.len();
    if n == 0 {
        return Err(SourceError::NoSources);
    }
    let several: bool = n > 1;
    let ghost names = names_of(inputs@);
    let ghost goal = assembled(names);
    let ghost goal_readers = assembled_readers(inputs@);
    let ghost shift: int = if several {
        1
    } else {
        0
    };
    let mut set: SourceSet<R> = SourceSet::new();
    if several {
        let aggregate = AggregateSource::new(String::from_str("aggregate"));
        set.add(AnySource::Aggregate(aggregate));
    }
    assert(set@ =~= goal.take(shift));
    assert(set.readers() =~= goal_readers.take(shift));
    assert(rest@.skip(0) =~= rest@);
    while rest.len() > 0
        invariant
            n == inputs.len(),
            n > 0,
            several == (n > 1),
            shift == if several {
                1int
            } else {
                0int
            },
            names == names_of(inputs@),
            goal == assembled(names),
            goal_readers == assembled_readers(inputs@),
            rest.len() <= n,
            rest@ == inputs@.skip(n - rest.len()),
            set.wf(),
            set@ == goal.take(n - rest.len() + shift),
            set.readers() == goal_readers.take(n - rest.len() + shift),
        decreases rest.len(),
    {
        let ghost done: int = n - rest.len();
        let ghost before = set@;
        let ghost readers_before = set.readers();
        let (name, reader) = rest.remove(0);
        proof {
            assert(inputs@[done] == (name, reader));
            assert(rest@ =~= inputs@.skip(done + 1));
        }
        let place: usize = set.add(AnySource::Readable(ReadableSource::new(name, reader)));
        if several {
            let registered = set.register_listener(place, 0);
            proof {
                assert(before[0] == goal[0]);
                assert(registered is Ok);
                assert(set@ =~= goal.take(done + 1 + shift));
            }
        } else {
            proof {
                assert(set@ =~= goal.take(done + 1 + shift));
            }
        }
        proof {
            assert(set.readers() =~= goal_readers.take(done + 1 + shift));
        }
    }
    proof {
        assert(goal.take(n + shift) =~= goal);
        assert(goal_readers.take(n + shift) =~= goal_readers);
    }
    Ok(set)
}

/// The sources after a run of appends, each given by the place of its source
/// and its line.
pub open spec fn replay(sources: Seq<SourceView>, appends: Seq<(usize, Seq<char>)>) -> Seq<
    SourceView,
>
    decreases appends.len(),
{
    if appends.len() == 0 {
        sources
    } else {
        after_append(
            replay(sources, appends.drop_last()),
            appends.last().0 as int,
            appends.last().1,
        )
    }
}

/// The lines of a run of appends that land in `target`, in the order of the
/// run.
pub open spec fn arrivals(
    sources: Seq<SourceView>,
    appends: Seq<(usize, Seq<char>)>,
    target: int,
) -> Seq<Seq<char>>
    decreases appends.len(),
{
    if appends.len() == 0 {
        Seq::empty()
    } else if receives(sources, appends.last().0 as int, target) {
        arrivals(sources, appends.drop_last(), target).push(appends.last().1)
    } else {
        arrivals(sources, appends.drop_last(), target)
    }
}

/// Whatever the order in which appends to different sources interleave, each
/// buffer ends up holding what it held, followed by exactly the lines that
/// were sent its way, each one whole, in the order in which they were
/// appended. Nothing else about a source changes. In particular an aggregate
/// holds the lines of its sources in their order of arrival, and the lines of
/// any one source appear in it in that source's own order.
pub proof fn lemma_buffers_keep_arrival_order(
    sources: Seq<SourceView>,
    appends: Seq<(usize, Seq<char>)>,
)
    requires
        forall|k: int| 0 <= k < appends.len() ==> (#[trigger] appends[k]).0 < sources.len(),
    ensures
        replay(sources, appends).len() == sources.len(),
        forall|j: int|
            0 <= j < sources.len() ==> (#[trigger] replay(sources, appends)[j]) == (SourceView {
                lines: sources[j].lines + arrivals(sources, appends, j),
                ..sources[j]
            }),
    decreases appends.len(),
{
    if appends.len() == 0 {
        assert forall|j: int| 0 <= j < sources.len() implies (#[trigger] replay(
            sources,
            appends,
        )[j]).lines == sources[j].lines + arrivals(sources, appends, j) by {
            assert(sources[j].lines + Seq::<Seq<char>>::empty() =~= sources[j].lines);
        }
    } else {
        let earlier = appends.drop_last();
        let (source, line) = appends.last();
        assert forall|k: int| 0 <= k < earlier.len() implies (#[trigger] earlier[k]).0
            < sources.len() by {
            assert(earlier[k] == appends[k]);
        }
        lemma_buffers_keep_arrival_order(sources, earlier);
        let mid = replay(sources, earlier);
        let end = replay(sources, appends);
        assert(mid[source as int].listeners == sources[source as int].listeners);
        assert forall|j: int| 0 <= j < sources.len() implies {
            &&& (#[trigger] end[j]).lines == sources[j].lines + arrivals(sources, appends, j)
            &&& end[j].name == sources[j].name
            &&& end[j].listeners == sources[j].listeners
            &&& end[j].readable == sources[j].readable
        } by {
            assert(receives(mid, source as int, j) == receives(sources, source as int, j));
            let got = arrivals(sources, earlier, j);
            assert(mid[j].lines == sources[j].lines + got);
            if receives(sources, source as int, j) {
                assert((sources[j].lines + got).push(line) =~= sources[j].lines + got.push(line));
            }
        }
    }
}

/// Two readable sources `a` and `b` feed one aggregate `g`. After a line has
/// been appended to `a`, then one to `b`, then another to `a`, the aggregate
/// has gained the three lines in that order, and each of the two sources has
/// gained only its own.
pub proof fn lemma_aggregate_merges_in_arrival_order(
    sources: Seq<SourceView>,
    a: usize,
    b: usize,
    g: usize,
    a0: Seq<char>,
    b0: Seq<char>,
    a1: Seq<char>,
)
    requires
        forall|i: int| 0 <= i < sources.len() ==> #[trigger] listeners_in_order(sources, i),
        a < sources.len(),
        b < sources.len(),
        a != b,
        sources[a as int].readable,
        sources[b as int].readable,
        sources[a as int].listeners.contains(g),
        sources[b as int].listeners.contains(g),
    ensures
        ({
            let end = after_append(
                after_append(after_append(sources, a as int, a0), b as int, b0),
                a as int,
                a1,
            );
            &&& end[g as int].lines == sources[g as int].lines + seq![a0, b0, a1]
            &&& end[a as int].lines == sources[a as int].lines + seq![a0, a1]
            &&& end[b as int].lines == sources[b as int].lines + seq![b0]
        }),
{
    assert(listeners_in_order(sources, a as int));
    assert(listeners_in_order(sources, b as int));
    let ka = choose|k: int|
        0 <= k < sources[a as int].listeners.len() && sources[a as int].listeners[k] == g;
    let kb = choose|k: int|
        0 <= k < sources[b as int].listeners.len() && sources[b as int].listeners[k] == g;
    assert(sources[a as int].listeners[ka] == g);
    assert(g < sources.len() && !sources[g as int].readable);
    assert(!sources[a as int].listeners.contains(b)) by {
        if sources[a as int].listeners.contains(b) {
            let k = choose|k: int|
                0 <= k < sources[a as int].listeners.len() && sources[a as int].listeners[k] == b;
            assert(!sources[sources[a as int].listeners[k] as int].readable);
        }
    }
    assert(!sources[b as int].listeners.contains(a)) by {
        if sources[b as int].listeners.contains(a) {
            let k = choose|k: int|
                0 <= k < sources[b as int].listeners.len() && sources[b as int].listeners[k] == a;
            assert(!sources[sources[b as int].listeners[k] as int].readable);
        }
    }
    let one = after_append(sources, a as int, a0);
    let two = after_append(one, b as int, b0);
    let end = after_append(two, a as int, a1);
    assert(end[g as int].lines =~= sources[g as int].lines + seq![a0, b0, a1]);
    assert(end[a as int].lines =~= sources[a as int].lines + seq![a0, a1]);
    assert(end[b as int].lines =~= sources[b as int].lines + seq![b0]);
}

} // verus!
