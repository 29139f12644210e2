//! Sinks of the library: one that drops every byte and one that gathers the
//! body of a part for a later conversion.

use crate::header::Headers;
use crate::{ProcessContent, ProcessParams};
use vstd::prelude::*;

verus! {

/// A sink that drops what it is given.
pub struct NullProcessor {
    params: ProcessParams,
}

impl NullProcessor {
    /// A sink without name and without size limit.
    pub fn new() -> (r: NullProcessor)
        ensures
            r.name() == Seq::<char>::empty(),
            r.max_size() is None,
    {
        let r = NullProcessor { params: ProcessParams { name: String::new(), max_size: None } };
        r
    }

    /// What the sink declares.
    pub closed spec fn declared(&self) -> &ProcessParams {
        &self.params
    }

    /// The declared name.
    pub open spec fn name(&self) -> Seq<char> {
        self.declared().name@
    }

    /// The declared size limit.
    pub open spec fn max_size(&self) -> Option<usize> {
        self.declared().max_size
    }
}

impl<T> ProcessContent<T> for NullProcessor {
    /// The sink declares no name and no size limit.
    open spec fn declares(&self, name: Seq<char>, max_size: Option<usize>) -> bool {
        name == self.name() && max_size == self.max_size()
    }

    /// The sink stays as it is, whatever it is given.
    open spec fn holds(&self, origin: Self, headers: Headers, taken: Seq<u8>) -> bool {
        *self == origin
    }

    /// The sink leaves the target as it is.
    open spec fn flushes(&self, headers: Headers, before: T, after: T) -> bool {
        after == before
    }

    fn open(&mut self, _headers: &Headers)
        ensures
            *final(self) == *old(self),
    {
    }

    fn write(&mut self, _headers: &Headers, _data: &Vec<u8>)
        ensures
            *final(self) == *old(self),
    {
    }

    fn flush(&mut self, _headers: &Headers, _target: &mut T)
        ensures
            *final(self) == *old(self),
            *final(_target) == *old(_target),
    {
    }

    fn get_process_params(&self) -> &ProcessParams
        returns
            self.declared(),
    {
        &self.params
    }
}

/// A sink that gathers the body of a part in memory.
pub struct DefaultProcessor {
    params: ProcessParams,
    raw_data: Vec<u8>,
    is_done: bool,
}

impl DefaultProcessor {
    /// The bytes gathered so far.
    pub closed spec fn raw(&self) -> Seq<u8> {
        self.raw_data@
    }

    /// Whether the part has ended.
    pub closed spec fn done(&self) -> bool {
        self.is_done
    }

    /// What the sink declares.
    pub closed spec fn declared(&self) -> &ProcessParams {
        &self.params
    }

    /// The declared name.
    pub open spec fn name(&self) -> Seq<char> {
        self.declared().name@
    }

    /// The declared size limit.
    pub open spec fn max_size(&self) -> Option<usize> {
        self.declared().max_size
    }

    /// A sink that holds no bytes yet and declares `params`.
    pub fn new(params: ProcessParams) -> (r: DefaultProcessor)
        ensures
            r.raw() == Seq::<u8>::empty(),
            !r.done(),
            r.name() == params.name@,
            r.max_size() == params.max_size,
    {
        DefaultProcessor { params, raw_data: Vec::new(), is_done: false }
    }

    /// Whether the whole body has been gathered, that is, `flush` was called.
    pub fn is_done(&self) -> (r: bool)
        ensures
            r == self.done(),
    {
        self.is_done
    }

    /// The bytes gathered so far.
    pub fn raw_data(&self) -> (r: &Vec<u8>)
        ensures
            r@ == self.raw(),
    {
        &self.raw_data
    }

    /// Begins a part: what an ended part left behind is dropped.
    pub fn open(&mut self)
        ensures
            !final(self).done(),
            final(self).raw() == if old(self).done() {
                Seq::<u8>::empty()
            } else {
                old(self).raw()
            },
            final(self).name() == old(self).name(),
            final(self).max_size() == old(self).max_size(),
    {
        if self.is_done {
            self.raw_data.clear();
            self.is_done = false;
        }
    }

    /// Appends `data` to the gathered bytes.
    pub fn write(&mut self, data: &Vec<u8>)
        requires
            !old(self).done(),
        ensures
            !final(self).done(),
            final(self).raw() == old(self).raw() + data@,
            final(self).name() == old(self).name(),
            final(self).max_size() == old(self).max_size(),
    {
        let ghost before = self.raw_data@;
        self.raw_data.extend_from_slice(data.as_slice());
        assert(self.raw_data@ =~= before + data@);
    }

    /// Ends the part.
    pub fn flush(&mut self)
        ensures
            final(self).done(),
            final(self).raw() == old(self).raw(),
            final(self).name() == old(self).name(),
            final(self).max_size() == old(self).max_size(),
    {
        self.is_done = true;
    }

    /// The declared name and size limit.
    pub fn get_process_params(&self) -> (r: &ProcessParams)
        ensures
            r.name@ == self.name(),
            r.max_size == self.max_size(),
    {
        &self.params
    }
}

impl<T> ProcessContent<T> for DefaultProcessor {
    open spec fn is_open(&self) -> bool {
        !self.done()
    }

    /// The sink declares what it was made with.
    open spec fn declares(&self, name: Seq<char>, max_size: Option<usize>) -> bool {
        name == self.name() && max_size == self.max_size()
    }

    /// The sink declares what it declared, and holds what it was given
    /// since it was opened: after what it held before, unless it had been
    /// flushed.
    open spec fn holds(&self, origin: Self, headers: Headers, taken: Seq<u8>) -> bool {
        &&& self.name() == origin.name()
        &&& self.max_size() == origin.max_size()
        &&& !self.done()
        &&& self.raw() == if origin.done() {
            taken
        } else {
            origin.raw() + taken
        }
    }

    /// The sink leaves the target as it is.
    open spec fn flushes(&self, headers: Headers, before: T, after: T) -> bool {
        after == before
    }

    fn open(&mut self, _headers: &Headers)
        ensures
            !final(self).done(),
            final(self).raw() == if old(self).done() {
                Seq::<u8>::empty()
            } else {
                old(self).raw()
            },
            final(self).name() == old(self).name(),
            final(self).max_size() == old(self).max_size(),
    {
        DefaultProcessor::open(self);
        assert(self.raw() + Seq::<u8>::empty() =~= self.raw());
    }

    fn write(&mut self, _headers: &Headers, data: &Vec<u8>)
        ensures
            !final(self).done(),
            final(self).raw() == old(self).raw() + data@,
            final(self).name() == old(self).name(),
            final(self).max_size() == old(self).max_size(),
    {
        DefaultProcessor::write(self, data);
        assert forall|origin: Self, taken: Seq<u8>| #[trigger]
            <DefaultProcessor as ProcessContent<T>>::holds(
                old(self),
                origin,
                *_headers,
                taken,
            ) implies <DefaultProcessor as ProcessContent<T>>::holds(
            self,
            origin,
            *_headers,
            taken + data@,
        ) by {
            assert((origin.raw() + taken) + data@ =~= origin.raw() + (taken + data@));
        }
    }

    fn flush(&mut self, _headers: &Headers, _target: &mut T)
        ensures
            final(self).done(),
            final(self).raw() == old(self).raw(),
            *final(_target) == *old(_target),
    {
        DefaultProcessor::flush(self);
    }

    fn get_process_params(&self) -> &ProcessParams
        returns
            self.declared(),
    {
        &self.params
    }
}

} // verus!
