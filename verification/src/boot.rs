//! The modules the bootloader hands the kernel (such as the initial ramdisk),
//! found by name.
use vstd::prelude::*;

verus! {

/// A file loaded by the bootloader: its name (without the terminating NUL) and contents.
pub struct BootModule<'a> {
    pub name: &'a [u8],
    pub data: &'a [u8],
}

/// Whether two byte strings are equal.
pub fn bytes_equal(a: &[u8], b: &[u8]) -> (r: bool)
    ensures
        r == (a@ == b@),
{
    if a.len() != b.len() {
        return false;
    }
    let mut i: usize = 0;
    while i < a.len()
        invariant
            a@.len() == b@.len(),
            i <= a@.len(),
            forall|k: int| 0 <= k < i ==> a@[k] == b@[k],
        decreases a@.len() - i,
    {
        if a[i] != b[i] {
            return false;
        }
        i = i + 1;
    }
    assert(a@ =~= b@);
    true
}

/// Index of the first module named `name`, if any.
pub open spec fn first_module_named(names: Seq<Seq<u8>>, name: Seq<u8>) -> Option<int> {
    if exists|i: int| 0 <= i < names.len() && names[i] == name {
        Some(choose|i: int| 0 <= i < names.len() && names[i] == name && forall|j: int| 0 <= j < i ==> names[j] != name)
    } else {
        None
    }
}

/// The boot modules, once they are known.
pub struct Modules<'a> {
    modules: Option<Vec<BootModule<'a>>>,
}

impl<'a> Modules<'a> {
    pub closed spec fn is_initialized(&self) -> bool {
        self.modules is Some
    }

    /// The modules' names, in the order the bootloader gave them.
    pub closed spec fn names(&self) -> Seq<Seq<u8>> {
        match self.modules {
            Some(v) => v@.map_values(|m: BootModule<'a>| m.name@),
            None => seq![],
        }
    }

    /// The modules' contents, in the same order.
    pub closed spec fn contents(&self) -> Seq<Seq<u8>> {
        match self.modules {
            Some(v) => v@.map_values(|m: BootModule<'a>| m.data@),
            None => seq![],
        }
    }

    /// No modules known yet.
    pub fn new() -> (r: Self)
        ensures
            !r.is_initialized(),
    {
        Modules { modules: None }
    }

    /// Records the modules the bootloader gave.
    pub fn init(&mut self, modules: Vec<BootModule<'a>>)
        ensures
            final(self).is_initialized(),
            final(self).names() == modules@.map_values(|m: BootModule<'a>| m.name@),
            final(self).contents() == modules@.map_values(|m: BootModule<'a>| m.data@),
    {
        self.modules = Some(modules);
    }

    /// The contents of the first module named `name`; nothing before the
    /// modules are known or when none has that name.
    pub fn find(&self, name: &[u8]) -> (r: Option<&'a [u8]>)
        ensures
            !self.is_initialized() ==> r is None,
            self.is_initialized() ==> match r {
                Some(d) => {
                    let i = choose|i: int|
                        0 <= i < self.names().len() && self.names()[i] == name@ && forall|j: int|
                            0 <= j < i ==> self.names()[j] != name@;
                    &&& exists|i: int| 0 <= i < self.names().len() && self.names()[i] == name@
                    &&& d@ == self.contents()[i]
                },
                None => forall|i: int| 0 <= i < self.names().len() ==> self.names()[i] != name@,
            },
    {
        match &self.modules {
            None => None,
            Some(modules) => {
                let ghost names = self.names();
                let mut i: usize = 0;
                while i < modules.len()
                    invariant
                        i <= modules@.len(),
                        names.len() == modules@.len(),
                        self.modules == Some(*modules),
                        names == self.names(),
                        forall|j: int| 0 <= j < i ==> names[j] != name@,
                    decreases modules@.len() - i,
                {
                    assert(names[i as int] == modules@[i as int].name@);
                    if bytes_equal(modules[i].name, name) {
                        let ghost k = choose|k: int|
                            0 <= k < names.len() && names[k] == name@ && forall|j: int|
                                0 <= j < k ==> names[j] != name@;
                        assert(0 <= i < names.len() && names[i as int] == name@ && forall|j: int|
                            0 <= j < i ==> names[j] != name@);
                        proof {
                            if k != i {
                                if k < i {
                                } else {
                                    assert(names[i as int] != name@);
                                }
                            }
                        }
                        assert(self.contents()[i as int] == modules@[i as int].data@);
                        return Some(modules[i].data);
                    }
                    i = i + 1;
                }
                None
            },
        }
    }
}

} // verus!
