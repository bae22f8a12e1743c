use vstd::prelude::*;

verus! {

/// What an operation of the engine can fail with.
#[derive(Debug, Clone, Copy)]
pub enum Error {
    EntityAlreadyPresented,
    EntityNotPresented,
    WorldOutOfBounds,
    TypeNotPresented,
    TypeAlreadyPresented,
    ComponentAlreadyPresented,
    SystemAlreadyRegistered(&'static str),
    SystemNotRegistered(&'static str),
    SystemAlreadyPresented(&'static str),
    GroupNotRegistered,
    ArchetypeAllreadyPresented,
    ArchetypeNotPresented,
}

/// The text that describes `e`.
pub open spec fn error_text(e: Error) -> Seq<char> {
    match e {
        Error::EntityAlreadyPresented => "Entity is already presented"@,
        Error::EntityNotPresented => "Entity is not presented"@,
        Error::WorldOutOfBounds => "World is out of bounds"@,
        Error::TypeNotPresented => "Type is not presented"@,
        Error::TypeAlreadyPresented => "Type is already presented"@,
        Error::ComponentAlreadyPresented => "Component is already presented"@,
        Error::SystemAlreadyRegistered(name) => "System '"@ + name@ + "' is already registered"@,
        Error::SystemNotRegistered(name) => "System '"@ + name@ + "' is not registered"@,
        Error::SystemAlreadyPresented(name) => "System '"@ + name@ + "' is already presented"@,
        Error::GroupNotRegistered => "Group is not registered"@,
        Error::ArchetypeAllreadyPresented => "Archetype allready presented"@,
        Error::ArchetypeNotPresented => "Archetype not presented"@,
    }
}

fn quoted(prefix: &str, name: &str, suffix: &str) -> (s: String)
    ensures
        s@ == prefix@ + name@ + suffix@,
{
    let mut s = String::from_str(prefix);
    s.append(name);
    s.append(suffix);
    s
}

impl Error {
    /// The human-readable description of the error.
    pub fn message(&self) -> (s: String)
        ensures
            s@ == error_text(*self),
    {
        match self {
            Error::EntityAlreadyPresented => String::from_str("Entity is already presented"),
            Error::EntityNotPresented => String::from_str("Entity is not presented"),
            Error::WorldOutOfBounds => String::from_str("World is out of bounds"),
            Error::TypeNotPresented => String::from_str("Type is not presented"),
            Error::TypeAlreadyPresented => String::from_str("Type is already presented"),
            Error::ComponentAlreadyPresented => String::from_str("Component is already presented"),
            Error::SystemAlreadyRegistered(name) => quoted("System '", name, "' is already registered"),
            Error::SystemNotRegistered(name) => quoted("System '", name, "' is not registered"),
            Error::SystemAlreadyPresented(name) => quoted("System '", name, "' is already presented"),
            Error::GroupNotRegistered => String::from_str("Group is not registered"),
            Error::ArchetypeAllreadyPresented => String::from_str("Archetype allready presented"),
            Error::ArchetypeNotPresented => String::from_str("Archetype not presented"),
        }
    }
}

} // verus!
