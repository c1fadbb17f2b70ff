use vstd::prelude::*;

verus! {

/// Operating system that the plugin libraries are built for.
#[derive(Debug, Clone, Copy, PartialEq, Eq, Structural)]
pub enum TargetOs {
    Linux,
    MacOs,
    Windows,
    Other,
}

/// The operating system that the name, as Rust spells it in
/// `std::env::consts::OS`, stands for.
pub open spec fn os_named(name: Seq<char>) -> TargetOs {
    if name == "linux"@ {
        TargetOs::Linux
    } else if name == "macos"@ {
        TargetOs::MacOs
    } else if name == "windows"@ {
        TargetOs::Windows
    } else {
        TargetOs::Other
    }
}

/// What the file name of a dynamic library starts with.
pub open spec fn library_prefix(os: TargetOs) -> Seq<char> {
    match os {
        TargetOs::Windows => ""@,
        _ => "lib"@,
    }
}

/// What the file name of a dynamic library ends with.
pub open spec fn library_suffix(os: TargetOs) -> Seq<char> {
    match os {
        TargetOs::Linux => ".so"@,
        TargetOs::MacOs => ".dylib"@,
        TargetOs::Windows => ".dll"@,
        TargetOs::Other => ".so"@,
    }
}

impl TargetOs {
    /// The operating system that `name` stands for; unknown names count as
    /// an `Other` system.
    pub fn from_name(name: &str) -> (os: TargetOs)
        ensures
            os == os_named(name@),
    {
        let given = String::from_str(name);
        if given == String::from_str("linux") {
            TargetOs::Linux
        } else if given == String::from_str("macos") {
            TargetOs::MacOs
        } else if given == String::from_str("windows") {
            TargetOs::Windows
        } else {
            TargetOs::Other
        }
    }
}

/// File name of the dynamic library of the plugin `plugin_name` on `os`.
pub fn plugin_file_name(plugin_name: &str, os: TargetOs) -> (name: String)
    ensures
        name@ == library_prefix(os) + plugin_name@ + library_suffix(os),
{
    let prefix = match os {
        TargetOs::Windows => "",
        _ => "lib",
    };
    let suffix = match os {
        TargetOs::Linux => ".so",
        TargetOs::MacOs => ".dylib",
        TargetOs::Windows => ".dll",
        TargetOs::Other => ".so",
    };
    let mut name = String::from_str(prefix);
    name.append(plugin_name);
    name.append(suffix);
    name
}

/// Directory searched for plugins when none is given.
pub open spec fn default_plugin_dir(debug_build: bool) -> Seq<char> {
    if debug_build {
        "target/debug"@
    } else {
        "target/release"@
    }
}

/// The directory to search for plugins: the one given, or else the build
/// directory of the kind of build that is running.
pub fn plugin_dir(given: Option<String>, debug_build: bool) -> (dir: String)
    ensures
        dir@ == match given {
            Some(d) => d@,
            None => default_plugin_dir(debug_build),
        },
{
    match given {
        Some(d) => d,
        None => {
            if debug_build {
                String::from_str("target/debug")
            } else {
                String::from_str("target/release")
            }
        },
    }
}

/// How much the processor logs.
#[derive(Debug, Clone, Copy, PartialEq, Eq, Structural)]
pub enum LogLevel {
    Debug,
    Info,
}

/// Verbose runs log debug messages too; others log from informational
/// messages up.
pub fn log_level(verbose: bool) -> (level: LogLevel)
    ensures
        level == (if verbose {
            LogLevel::Debug
        } else {
            LogLevel::Info
        }),
{
    if verbose {
        LogLevel::Debug
    } else {
        LogLevel::Info
    }
}

} // verus!
