//! The crate-wide error type. Every fallible operation reports one of these
//! kinds; the kind name is a stable discriminant a front end can branch on.

use vstd::prelude::*;

verus! {

/// An error of the library. Errors that arise in an outside component
/// (I/O, the database, JSON, archives) carry that component's message.
#[derive(Debug)]
pub enum DeskemyError {
    Io(String),
    Database(String),
    Serde(String),
    Archive(String),
    Config(String),
    Import(String),
    Probe(String),
    Player(String),
    NotFound(String),
    Other(String),
}

/// The machine-readable name of an error's kind.
pub open spec fn kind_name(e: DeskemyError) -> Seq<char> {
    match e {
        DeskemyError::Io(_) => "Io"@,
        DeskemyError::Database(_) => "Database"@,
        DeskemyError::Serde(_) => "Serde"@,
        DeskemyError::Archive(_) => "Archive"@,
        DeskemyError::Config(_) => "Config"@,
        DeskemyError::Import(_) => "Import"@,
        DeskemyError::Probe(_) => "Probe"@,
        DeskemyError::Player(_) => "Player"@,
        DeskemyError::NotFound(_) => "NotFound"@,
        DeskemyError::Other(_) => "Other"@,
    }
}

impl DeskemyError {
    /// Stable machine-readable discriminant, the variant's name.
    pub fn kind(&self) -> (r: &'static str)
        ensures
            r@ == kind_name(*self),
    {
        match self {
            DeskemyError::Io(_) => "Io",
            DeskemyError::Database(_) => "Database",
            DeskemyError::Serde(_) => "Serde",
            DeskemyError::Archive(_) => "Archive",
            DeskemyError::Config(_) => "Config",
            DeskemyError::Import(_) => "Import",
            DeskemyError::Probe(_) => "Probe",
            DeskemyError::Player(_) => "Player",
            DeskemyError::NotFound(_) => "NotFound",
            DeskemyError::Other(_) => "Other",
        }
    }

    /// The message the error carries.
    pub fn detail(&self) -> (r: &String)
        ensures
            r == match *self {
                DeskemyError::Io(m) => m,
                DeskemyError::Database(m) => m,
                DeskemyError::Serde(m) => m,
                DeskemyError::Archive(m) => m,
                DeskemyError::Config(m) => m,
                DeskemyError::Import(m) => m,
                DeskemyError::Probe(m) => m,
                DeskemyError::Player(m) => m,
                DeskemyError::NotFound(m) => m,
                DeskemyError::Other(m) => m,
            },
    {
        match self {
            DeskemyError::Io(m) => m,
            DeskemyError::Database(m) => m,
            DeskemyError::Serde(m) => m,
            DeskemyError::Archive(m) => m,
            DeskemyError::Config(m) => m,
            DeskemyError::Import(m) => m,
            DeskemyError::Probe(m) => m,
            DeskemyError::Player(m) => m,
            DeskemyError::NotFound(m) => m,
            DeskemyError::Other(m) => m,
        }
    }
}

/// Position of an error's kind in the declaration order.
pub open spec fn kind_index(e: DeskemyError) -> int {
    match e {
        DeskemyError::Io(_) => 0,
        DeskemyError::Database(_) => 1,
        DeskemyError::Serde(_) => 2,
        DeskemyError::Archive(_) => 3,
        DeskemyError::Config(_) => 4,
        DeskemyError::Import(_) => 5,
        DeskemyError::Probe(_) => 6,
        DeskemyError::Player(_) => 7,
        DeskemyError::NotFound(_) => 8,
        DeskemyError::Other(_) => 9,
    }
}

/// Recovers the kind from its name by length and first letter.
spec fn index_of_name(n: Seq<char>) -> int {
    if n.len() == 2 {
        0
    } else if n.len() == 8 && n[0] == 'D' {
        1
    } else if n.len() == 5 && n[0] == 'S' {
        2
    } else if n.len() == 7 {
        3
    } else if n.len() == 6 && n[0] == 'C' {
        4
    } else if n.len() == 6 && n[0] == 'I' {
        5
    } else if n.len() == 5 && n[0] == 'P' {
        6
    } else if n.len() == 6 {
        7
    } else if n.len() == 8 {
        8
    } else {
        9
    }
}

proof fn lemma_name_determines_kind(e: DeskemyError)
    ensures
        index_of_name(kind_name(e)) == kind_index(e),
{
    match e {
        DeskemyError::Io(_) => reveal_strlit("Io"),
        DeskemyError::Database(_) => reveal_strlit("Database"),
        DeskemyError::Serde(_) => reveal_strlit("Serde"),
        DeskemyError::Archive(_) => reveal_strlit("Archive"),
        DeskemyError::Config(_) => reveal_strlit("Config"),
        DeskemyError::Import(_) => reveal_strlit("Import"),
        DeskemyError::Probe(_) => reveal_strlit("Probe"),
        DeskemyError::Player(_) => reveal_strlit("Player"),
        DeskemyError::NotFound(_) => reveal_strlit("NotFound"),
        DeskemyError::Other(_) => reveal_strlit("Other"),
    }
}

/// Two errors with the same kind name are of the same kind: the name is a
/// faithful discriminant.
pub proof fn law_kind_names_distinct(a: DeskemyError, b: DeskemyError)
    requires
        kind_name(a) == kind_name(b),
    ensures
        kind_index(a) == kind_index(b),
{
    lemma_name_determines_kind(a);
    lemma_name_determines_kind(b);
}

} // verus!
