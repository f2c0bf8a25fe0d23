//! The server's registry of component types that take part in sync.
use vstd::prelude::*;
use vstd::string::StrSliceExecFns;

use crate::names::{short_name_of, short_type_name};

verus! {

/// How one component type is synchronized.
#[derive(Clone, Copy, Debug, PartialEq, Eq, Structural)]
pub struct ComponentSyncConfig {
    /// Most updates of this type sent to one client in one frame; `None`
    /// means no limit.
    pub max_updates_per_frame: Option<usize>,
}

impl Default for ComponentSyncConfig {
    fn default() -> (r: ComponentSyncConfig)
        ensures
            r.max_updates_per_frame is None,
    {
        ComponentSyncConfig { max_updates_per_frame: None }
    }
}

/// One registered component type. The full type path is its identity; the
/// short name is its wire identifier.
#[derive(Clone, Debug)]
pub struct ComponentRegistration {
    pub type_path: String,
    pub component_type: String,
    pub config: ComponentSyncConfig,
}

impl ComponentRegistration {
    /// The registration of the type at `type_path`, named by its short name,
    /// with `config` or, when that is `None`, the default configuration.
    pub fn new(type_path: &str, config: Option<ComponentSyncConfig>) -> (r: ComponentRegistration)
        ensures
            r.type_path@ == type_path@,
            r.component_type@ == short_name_of(type_path@),
            r.config == (match config {
                Some(c) => c,
                None => ComponentSyncConfig { max_updates_per_frame: None },
            }),
    {
        let cfg = match config {
            Some(c) => c,
            None => ComponentSyncConfig::default(),
        };
        ComponentRegistration {
            type_path: type_path.to_owned(),
            component_type: short_type_name(type_path),
            config: cfg,
        }
    }
}

/// Why a registration was refused.
#[derive(Clone, Copy, Debug, PartialEq, Eq, Structural)]
pub enum RegistrationError {
    /// Another type with the same short name is registered already.
    DuplicateName,
}

/// The registered component types, in order of registration.
pub struct SyncRegistry {
    pub components: Vec<ComponentRegistration>,
}

impl SyncRegistry {
    /// No two registrations share a type path or a short name.
    pub open spec fn wf(&self) -> bool {
        forall|i: int, j: int|
            0 <= i < j < self.components@.len() ==> {
                &&& (#[trigger] self.components@[i]).type_path@ != (#[trigger] self.components@[j]).type_path@
                &&& self.components@[i].component_type@ != self.components@[j].component_type@
            }
    }

    /// Whether a type with this path is registered.
    pub open spec fn has_path(&self, path: Seq<char>) -> bool {
        exists|i: int| 0 <= i < self.components@.len() && #[trigger] self.components@[i].type_path@ == path
    }

    /// Whether a type with this short name is registered.
    pub open spec fn has_name(&self, name: Seq<char>) -> bool {
        exists|i: int| 0 <= i < self.components@.len() && #[trigger] self.components@[i].component_type@ == name
    }

    /// Whether registering `reg` is refused: its short name is taken by a
    /// type with another path.
    pub open spec fn registration_rejected(&self, reg: ComponentRegistration) -> bool {
        !self.has_path(reg.type_path@) && self.has_name(reg.component_type@)
    }

    pub fn new() -> (r: SyncRegistry)
        ensures
            r.wf(),
            r.components@.len() == 0,
    {
        SyncRegistry { components: Vec::new() }
    }

    /// Registers a type. Registering a type that is registered already does
    /// nothing; registering a type whose short name another type holds is
    /// refused, and leaves the registry as it was.
    pub fn register_component(&mut self, registration: ComponentRegistration) -> (r: Result<(), RegistrationError>)
        requires
            old(self).wf(),
        ensures
            final(self).wf(),
            r is Err <==> old(self).registration_rejected(registration),
            r is Err ==> r == Err::<(), RegistrationError>(RegistrationError::DuplicateName),
            old(self).has_path(registration.type_path@) ==> final(self).components@ == old(self).components@,
            r is Err ==> final(self).components@ == old(self).components@,
            !old(self).has_path(registration.type_path@) && !old(self).has_name(registration.component_type@)
                ==> final(self).components@ == old(self).components@.push(registration),
    {
        let mut i: usize = 0;
        while i < self.components.len()
            invariant
                0 <= i <= self.components@.len(),
                self == old(self),
                self.wf(),
                forall|k: int| 0 <= k < i ==> #[trigger] self.components@[k].type_path@ != registration.type_path@,
            decreases self.components@.len() - i,
        {
            if self.components[i].type_path == registration.type_path {
                assert(self.has_path(registration.type_path@));
                return Ok(());
            }
            i = i + 1;
        }
        match self.lookup(registration.component_type.as_str()) {
            Some(_) => Err(RegistrationError::DuplicateName),
            None => {
                let ghost before = self.components@;
                self.components.push(registration);
                assert forall|a: int, b: int| 0 <= a < b < self.components@.len() implies {
                    &&& (#[trigger] self.components@[a]).type_path@ != (#[trigger] self.components@[b]).type_path@
                    &&& self.components@[a].component_type@ != self.components@[b].component_type@
                } by {
                    if b < before.len() {
                        assert(before[a] == self.components@[a] && before[b] == self.components@[b]);
                    } else {
                        assert(self.components@[a] == before[a]);
                        assert(self.components@[a].component_type@ != registration.component_type@);
                    }
                }
                Ok(())
            },
        }
    }

    /// The per-frame update limit of the type named `name`; `None` when it
    /// has none or is not registered.
    pub open spec fn limit_for_name(&self, name: Seq<char>) -> Option<usize> {
        if self.has_name(name) {
            let i = choose|i: int| 0 <= i < self.components@.len() && #[trigger] self.components@[i].component_type@ == name;
            self.components@[i].config.max_updates_per_frame
        } else {
            None
        }
    }

    /// The per-frame update limit of the type named `name`.
    pub fn max_updates_for(&self, name: &str) -> (r: Option<usize>)
        requires
            self.wf(),
        ensures
            r == self.limit_for_name(name@),
    {
        match self.lookup(name) {
            Some(i) => {
                proof {
                    let k = choose|k: int| 0 <= k < self.components@.len() && #[trigger] self.components@[k].component_type@ == name@;
                    if k != i as int {
                        if k < i as int {
                            assert(self.components@[k].component_type@ != self.components@[i as int].component_type@);
                        } else {
                            assert(self.components@[i as int].component_type@ != self.components@[k].component_type@);
                        }
                    }
                }
                self.components[i].config.max_updates_per_frame
            },
            None => None,
        }
    }

    /// The index of the registration whose short name is `name`.
    pub fn lookup(&self, name: &str) -> (r: Option<usize>)
        ensures
            r matches Some(i) ==> i < self.components@.len() && self.components@[i as int].component_type@ == name@,
            r is None <==> !self.has_name(name@),
    {
        let mut i: usize = 0;
        while i < self.components.len()
            invariant
                0 <= i <= self.components@.len(),
                forall|k: int| 0 <= k < i ==> #[trigger] self.components@[k].component_type@ != name@,
            decreases self.components@.len() - i,
        {
            if str_eq(self.components[i].component_type.as_str(), name) {
                return Some(i);
            }
            i = i + 1;
        }
        None
    }
}

/// Whether two strings hold the same characters.
pub fn str_eq(a: &str, b: &str) -> (r: bool)
    ensures
        r == (a@ == b@),
{
    let n = a.unicode_len();
    if n != b.unicode_len() {
        return false;
    }
    let mut i: usize = 0;
    while i < n
        invariant
            0 <= i <= n,
            n == a@.len(),
            n == b@.len(),
            forall|k: int| 0 <= k < i ==> a@[k] == b@[k],
        decreases n - i,
    {
        if a.get_char(i) != b.get_char(i) {
            return false;
        }
        i = i + 1;
    }
    assert(a@ == b@);
    true
}

/// Registering two types with one short name is refused: once the first is
/// registered, the registration of the second, whatever its path, fails.
pub proof fn lemma_duplicate_short_name_rejected(
    registry: SyncRegistry,
    first: ComponentRegistration,
    second: ComponentRegistration,
)
    requires
        registry.wf(),
        registry.components@.contains(first),
        first.type_path@ != second.type_path@,
        first.component_type@ == second.component_type@,
        !registry.has_path(second.type_path@),
    ensures
        registry.registration_rejected(second),
{
    let i = choose|i: int| 0 <= i < registry.components@.len() && registry.components@[i] == first;
    assert(registry.components@[i].component_type@ == second.component_type@);
}

} // verus!
