//! The parameter registry: every parameter that exists in the engine is
//! registered here before it can be read or modulated, and no unregistered
//! parameter may be modulated.

use vstd::prelude::*;
use crate::path_map::PathMap;
use crate::unit::Unit;

verus! {

/// Describes the domain type of a parameter.
#[derive(Debug, Clone, Copy, PartialEq, Eq, Structural)]
pub enum Domain {
    Continuous,
    Discrete,
    Boolean,
}

/// Registered metadata for a single parameter. `N` is the numeric type of
/// the parameter's values.
#[derive(Debug)]
pub struct ParamDescriptor<N> {
    /// Dotted canonical path: e.g. `"cloud.shimmer.density"`.
    pub path: String,
    pub unit: Unit,
    pub domain: Domain,
    /// Valid range [min, max].
    pub range: (N, N),
    /// Default value (in native units).
    pub default: N,
    /// Optional human-readable description.
    pub description: Option<String>,
}

/// The signal that drives a registered parameter.
#[derive(Debug, Clone, PartialEq)]
pub enum SignalBinding<S> {
    /// The constant default value of the parameter's descriptor.
    Default,
    /// A signal bound with [`ParamRegistry::bind`].
    Bound(S),
}

/// Why a registry operation was refused.
#[derive(Debug, Clone, PartialEq, Eq)]
pub enum RegistryError {
    /// The path is registered already.
    AlreadyRegistered { path: String },
    /// The path is not registered.
    NotFound { path: String },
}

/// Registry mapping canonical parameter paths to their descriptors and signals.
pub struct ParamRegistry<N, S> {
    descriptors: PathMap<ParamDescriptor<N>>,
    signals: PathMap<SignalBinding<S>>,
}

impl<N, S> ParamRegistry<N, S> {
    /// The registered descriptors, by path.
    pub closed spec fn descriptors(&self) -> Map<Seq<char>, ParamDescriptor<N>> {
        self.descriptors.view()
    }

    /// The signal of each registered parameter, by path.
    pub closed spec fn signals(&self) -> Map<Seq<char>, SignalBinding<S>> {
        self.signals.view()
    }

    /// The registered paths, in registration order.
    pub closed spec fn path_order(&self) -> Seq<Seq<char>> {
        self.descriptors.path_order()
    }

    /// Every registered parameter has exactly one signal, every signal belongs
    /// to a registered parameter, and each descriptor is filed under its path.
    pub closed spec fn wf(&self) -> bool {
        &&& self.descriptors.wf()
        &&& self.signals.wf()
        &&& self.descriptors.view().dom() == self.signals.view().dom()
        &&& forall|p: Seq<char>| #[trigger]
            self.descriptors.view().dom().contains(p) ==> self.descriptors.view()[p].path@ == p
    }

    /// No unregistered parameter may be modulated: exactly the registered
    /// parameters have a signal, and each descriptor is filed under its own path.
    pub proof fn law_signals_only_for_registered(&self)
        requires
            self.wf(),
        ensures
            self.signals().dom() == self.descriptors().dom(),
            forall|p: Seq<char>| #[trigger]
                self.descriptors().dom().contains(p) ==> self.descriptors()[p].path@ == p,
    {
    }

    /// An empty registry.
    pub fn new() -> (r: Self)
        ensures
            r.wf(),
            r.descriptors() == Map::<Seq<char>, ParamDescriptor<N>>::empty(),
            r.signals() == Map::<Seq<char>, SignalBinding<S>>::empty(),
    {
        ParamRegistry { descriptors: PathMap::new(), signals: PathMap::new() }
    }

    /// Register a parameter descriptor; its signal starts at the descriptor's
    /// default value. Returns an error if the path is already registered.
    pub fn register(&mut self, descriptor: ParamDescriptor<N>) -> (result: Result<(), RegistryError>)
        requires
            old(self).wf(),
        ensures
            final(self).wf(),
            result is Ok <==> !old(self).descriptors().dom().contains(descriptor.path@),
            result is Ok ==> final(self).descriptors() == old(self).descriptors().insert(
                descriptor.path@,
                descriptor,
            ) && final(self).signals() == old(self).signals().insert(
                descriptor.path@,
                SignalBinding::Default,
            ) && final(self).path_order() == old(self).path_order().push(descriptor.path@),
            result matches Err(e) ==> (e == (RegistryError::AlreadyRegistered {
                path: descriptor.path,
            })),
            result is Err ==> final(self).descriptors() == old(self).descriptors()
                && final(self).signals() == old(self).signals() && final(self).path_order()
                == old(self).path_order(),
    {
        let path = descriptor.path.clone();
        if self.descriptors.contains_key(path.as_str()) {
            return Err(RegistryError::AlreadyRegistered { path });
        }
        let ghost p = path@;
        let key = path.clone();
        self.signals.insert(key, SignalBinding::Default);
        self.descriptors.insert(path, descriptor);
        proof {
            assert(self.descriptors.view().dom() =~= self.signals.view().dom());
        }
        Ok(())
    }

    /// Bind a signal to a registered parameter path. Fails, changing nothing,
    /// when the path is not registered.
    pub fn bind(&mut self, path: &str, signal: S) -> (result: Result<(), RegistryError>)
        requires
            old(self).wf(),
        ensures
            final(self).wf(),
            final(self).descriptors() == old(self).descriptors(),
            final(self).path_order() == old(self).path_order(),
            result is Ok <==> old(self).descriptors().dom().contains(path@),
            result is Ok ==> final(self).signals() == old(self).signals().insert(
                path@,
                SignalBinding::Bound(signal),
            ),
            result matches Err(e) ==> (e is NotFound),
            result matches Err(RegistryError::NotFound { path: p }) ==> p@ == path@,
            result is Err ==> final(self).signals() == old(self).signals(),
    {
        if !self.descriptors.contains_key(path) {
            return Err(RegistryError::NotFound { path: path.to_owned() });
        }
        self.signals.insert(path.to_owned(), SignalBinding::Bound(signal));
        proof {
            assert(self.descriptors.view().dom() =~= self.signals.view().dom());
        }
        Ok(())
    }

    /// The descriptor registered under `path`.
    pub fn get_descriptor(&self, path: &str) -> (r: Option<&ParamDescriptor<N>>)
        requires
            self.wf(),
        ensures
            r is Some <==> self.descriptors().dom().contains(path@),
            r matches Some(d) ==> *d == self.descriptors()[path@],
    {
        self.descriptors.get(path)
    }

    /// The signal that drives the parameter at `path`.
    pub fn get_signal(&self, path: &str) -> (r: Option<&SignalBinding<S>>)
        requires
            self.wf(),
        ensures
            r is Some <==> self.descriptors().dom().contains(path@),
            r matches Some(s) ==> *s == self.signals()[path@],
    {
        self.signals.get(path)
    }

    /// All registered paths, in registration order, each once.
    pub fn all_paths(&self) -> (r: Vec<&str>)
        requires
            self.wf(),
        ensures
            r@.map_values(|s: &str| s@) == self.path_order(),
            self.path_order().no_duplicates(),
            self.path_order().to_set() == self.descriptors().dom(),
    {
        proof {
            self.descriptors.lemma_path_order();
        }
        self.descriptors.paths()
    }
}

} // verus!
