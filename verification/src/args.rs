//! Execution contexts of a captured basic block and the options of a query.

use vstd::prelude::*;
use vstd::string::StringExecFns;

verus! {

/// Operand and address width of the processor when a block was captured.
#[derive(Debug, Hash, PartialEq, Eq, Clone, Copy, Structural)]
pub enum ExecutionMode {
    /// 32-bit compatibility mode.
    Compat,
    /// Full 64-bit mode.
    Bit64,
}

/// Protection ring of the processor when a block was captured.
#[derive(Debug, PartialEq, Eq, Clone, Copy, Structural)]
pub enum ExecutionPrivilege {
    /// Ring 3.
    User,
    /// Ring 0.
    Kernel,
}

/// Whether two texts hold the same characters.
pub fn same_text(a: &str, b: &str) -> (same: bool)
    ensures
        same == (a@ == b@),
{
    let left = String::from_str(a);
    let right = String::from_str(b);
    left == right
}

impl ExecutionMode {
    /// The byte that stands for a mode in a stored record.
    pub open spec fn code_of(self) -> u8 {
        match self {
            ExecutionMode::Compat => 0u8,
            ExecutionMode::Bit64 => 1u8,
        }
    }

    /// The name a mode goes by on the command line.
    pub open spec fn name_of(self) -> Seq<char> {
        match self {
            ExecutionMode::Compat => "compat"@,
            ExecutionMode::Bit64 => "64-bit"@,
        }
    }

    /// The byte that stands for this mode in a stored record.
    pub fn code(self) -> (c: u8)
        ensures
            c == self.code_of(),
    {
        match self {
            ExecutionMode::Compat => 0u8,
            ExecutionMode::Bit64 => 1u8,
        }
    }

    /// The mode a record byte stands for, if any.
    pub fn from_code(c: u8) -> (mode: Option<ExecutionMode>)
        ensures
            c == 0 ==> mode == Some(ExecutionMode::Compat),
            c == 1 ==> mode == Some(ExecutionMode::Bit64),
            c > 1 ==> mode is None,
            mode matches Some(m) ==> m.code_of() == c,
    {
        if c == 0 {
            Some(ExecutionMode::Compat)
        } else if c == 1 {
            Some(ExecutionMode::Bit64)
        } else {
            None
        }
    }

    /// The name this mode goes by on the command line.
    pub fn as_static(self) -> (name: &'static str)
        ensures
            name@ == self.name_of(),
    {
        match self {
            ExecutionMode::Compat => "compat",
            ExecutionMode::Bit64 => "64-bit",
        }
    }

    /// The mode that a command-line name stands for. Names are matched
    /// exactly, letter case included.
    pub fn from_str(name: &str) -> (mode: Option<ExecutionMode>)
        ensures
            mode matches Some(m) ==> m.name_of() == name@,
            mode is None ==> forall|m: ExecutionMode| m.name_of() != name@,
    {
        if same_text(name, "compat") {
            Some(ExecutionMode::Compat)
        } else if same_text(name, "64-bit") {
            Some(ExecutionMode::Bit64)
        } else {
            None
        }
    }
}

impl ExecutionPrivilege {
    /// The byte that stands for a privilege in a stored record.
    pub open spec fn code_of(self) -> u8 {
        match self {
            ExecutionPrivilege::Kernel => 0u8,
            ExecutionPrivilege::User => 3u8,
        }
    }

    /// The name a privilege goes by on the command line.
    pub open spec fn name_of(self) -> Seq<char> {
        match self {
            ExecutionPrivilege::User => "user"@,
            ExecutionPrivilege::Kernel => "kernel"@,
        }
    }

    /// The byte that stands for this privilege in a stored record.
    pub fn code(self) -> (c: u8)
        ensures
            c == self.code_of(),
    {
        match self {
            ExecutionPrivilege::Kernel => 0u8,
            ExecutionPrivilege::User => 3u8,
        }
    }

    /// The privilege a record byte stands for, if any.
    pub fn from_code(c: u8) -> (privilege: Option<ExecutionPrivilege>)
        ensures
            c == 0 ==> privilege == Some(ExecutionPrivilege::Kernel),
            c == 3 ==> privilege == Some(ExecutionPrivilege::User),
            c != 0 && c != 3 ==> privilege is None,
            privilege matches Some(p) ==> p.code_of() == c,
    {
        if c == 0 {
            Some(ExecutionPrivilege::Kernel)
        } else if c == 3 {
            Some(ExecutionPrivilege::User)
        } else {
            None
        }
    }

    /// The name this privilege goes by on the command line.
    pub fn as_static(self) -> (name: &'static str)
        ensures
            name@ == self.name_of(),
    {
        match self {
            ExecutionPrivilege::User => "user",
            ExecutionPrivilege::Kernel => "kernel",
        }
    }

    /// The privilege that a command-line name stands for. Names are matched
    /// exactly, letter case included.
    pub fn from_str(name: &str) -> (privilege: Option<ExecutionPrivilege>)
        ensures
            privilege matches Some(p) ==> p.name_of() == name@,
            privilege is None ==> forall|p: ExecutionPrivilege| p.name_of() != name@,
    {
        if same_text(name, "user") {
            Some(ExecutionPrivilege::User)
        } else if same_text(name, "kernel") {
            Some(ExecutionPrivilege::Kernel)
        } else {
            None
        }
    }
}

/// No two modes share a command-line name, so a name stands for at most one
/// mode.
pub proof fn lemma_mode_names_distinct(a: ExecutionMode, b: ExecutionMode)
    requires
        a.name_of() == b.name_of(),
    ensures
        a == b,
{
    reveal_strlit("compat");
    reveal_strlit("64-bit");
    if a != b {
        assert("compat"@.len() == 6);
        assert("64-bit"@[0] == '6');
        assert("compat"@[0] == 'c');
    }
}

/// No two privileges share a command-line name, so a name stands for at most
/// one privilege.
pub proof fn lemma_privilege_names_distinct(a: ExecutionPrivilege, b: ExecutionPrivilege)
    requires
        a.name_of() == b.name_of(),
    ensures
        a == b,
{
    reveal_strlit("user");
    reveal_strlit("kernel");
    if a != b {
        assert("user"@.len() == 4);
        assert("kernel"@.len() == 6);
    }
}

/// What the command line asked for.
#[derive(Debug)]
pub enum Opt {
    /// Feed every record to the instruction-name cache.
    CacheOpt {  },
    /// Show the records that pass the filters.
    ShowOpt {
        /// Keep only blocks whose disassembly contains this text.
        instruction_pattern: Option<String>,
        /// Keep only blocks captured under this mode.
        execution_mode: Option<ExecutionMode>,
        /// Keep only blocks captured under this privilege.
        execution_privilege: Option<ExecutionPrivilege>,
        /// The index of the first record to consider.
        starting_index: usize,
    },
}

/// The filters of a `show` query.
#[derive(Debug)]
pub struct ShowingClientOpt {
    /// Keep only blocks captured under this mode.
    pub execution_mode: Option<ExecutionMode>,
    /// Keep only blocks captured under this privilege.
    pub execution_privilege: Option<ExecutionPrivilege>,
    /// The index of the first record to consider.
    pub starting_index: usize,
    /// Keep only blocks whose disassembly contains this text.
    pub instruction_pattern: Option<String>,
}

impl ShowingClientOpt {
    /// The filters that the command line asked for, or nothing if it asked
    /// for something other than showing records.
    pub fn from(opt: Opt) -> (shown: Option<ShowingClientOpt>)
        ensures
            opt is CacheOpt ==> shown is None,
            opt matches Opt::ShowOpt {
                instruction_pattern,
                execution_mode,
                execution_privilege,
                starting_index,
            } ==> shown == Some(
                ShowingClientOpt {
                    execution_mode,
                    execution_privilege,
                    starting_index,
                    instruction_pattern,
                },
            ),
    {
        match opt {
            Opt::ShowOpt {
                execution_mode,
                execution_privilege,
                starting_index,
                instruction_pattern,
            } => Some(
                ShowingClientOpt {
                    execution_mode,
                    execution_privilege,
                    starting_index,
                    instruction_pattern,
                },
            ),
            _ => None,
        }
    }
}

} // verus!
