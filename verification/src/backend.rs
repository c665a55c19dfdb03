//! Touch injection backends.
//!
//! The engine produces touch actions; a backend delivers them to Android.

use crate::touch::TouchAction;
use vstd::prelude::*;
use vstd::string::*;

verus! {

/// Why a backend could not do its work.
#[derive(Debug)]
pub enum BackendError {
    Init(String),
    Dispatch(String),
}

impl BackendError {
    /// What the user is told.
    pub open spec fn text(self) -> Seq<char> {
        match self {
            BackendError::Init(m) => "backend init failed: "@ + m@,
            BackendError::Dispatch(m) => "touch dispatch failed: "@ + m@,
        }
    }

    pub fn message(&self) -> (r: String)
        ensures
            r@ == self.text(),
    {
        let mut s: String = String::new();
        match self {
            BackendError::Init(m) => {
                s.append("backend init failed: ");
                s.append(m.as_str());
            },
            BackendError::Dispatch(m) => {
                s.append("touch dispatch failed: ");
                s.append(m.as_str());
            },
        }
        proof {
            crate::text::lemma_after_nothing();
        }
        s
    }
}

/// Where touch actions go.
pub trait TouchBackend {
    /// Applies the actions in order. Actions arriving in a single call belong to
    /// the same frame.
    fn dispatch(&mut self, actions: &Vec<TouchAction>) -> Result<(), BackendError>;

    /// Lifts every finger (emergency stop, profile switch).
    fn release_all(&mut self) -> Result<(), BackendError>;

    fn name(&self) -> &'static str;
}

/// A backend that injects nowhere and only records.
#[derive(Debug)]
pub struct DebugBackend {
    pub log: Vec<TouchAction>,
}

impl Default for DebugBackend {
    fn default() -> (r: DebugBackend)
        ensures
            r.log@ == Seq::<TouchAction>::empty(),
    {
        DebugBackend { log: Vec::new() }
    }
}

impl TouchBackend for DebugBackend {
    fn dispatch(&mut self, actions: &Vec<TouchAction>) -> (r: Result<(), BackendError>)
        ensures
            r is Ok,
            final(self).log@ == old(self).log@ + actions@,
    {
        let mut i: usize = 0;
        while i < actions.len()
            invariant
                i <= actions@.len(),
                self.log@ == old(self).log@ + actions@.take(i as int),
            decreases actions@.len() - i,
        {
            self.log.push(actions[i]);
            assert(self.log@ =~= old(self).log@ + actions@.take(i + 1));
            i = i + 1;
        }
        assert(actions@.take(i as int) =~= actions@);
        Ok(())
    }

    fn release_all(&mut self) -> (r: Result<(), BackendError>)
        ensures
            r is Ok,
            *final(self) == *old(self),
    {
        Ok(())
    }

    fn name(&self) -> (r: &'static str)
        ensures
            r@ == "debug"@,
    {
        "debug"
    }
}

} // verus!
