//! How a host directory is served.

use vstd::prelude::*;
use crate::bytes::text_equal;
use crate::sandbox_metadata::{IdentityMapping, OVERFLOW_ID};

verus! {

/// A span of time.
#[derive(Debug, Clone, Copy, PartialEq, Eq, Structural)]
pub struct Duration {
    pub secs: u64,
    pub nanos: u32,
}

impl Duration {
    pub fn zero() -> (r: Duration)
        ensures
            r == (Duration { secs: 0, nanos: 0 }),
    {
        Duration { secs: 0, nanos: 0 }
    }

    pub fn from_secs(secs: u64) -> (r: Duration)
        ensures
            r == (Duration { secs, nanos: 0 }),
    {
        Duration { secs, nanos: 0 }
    }
}

/// How guest identities are stored beside host files.
#[derive(Debug, Clone, Copy, PartialEq, Eq, Structural)]
pub struct SandboxConfig {
    pub identity: IdentityMapping,
    /// Whether the backing volume has extended attributes.
    pub xattrs_enabled: bool,
}

/// The caching policy that the file system should report to the FUSE client. By default the FUSE
/// protocol uses close-to-open consistency. This means that any cached contents of the file are
/// invalidated the next time that file is opened.
#[derive(Debug, Clone, Copy, PartialEq, Eq, Structural)]
pub enum CachePolicy {
    /// The client should never cache file data and all I/O should be directly forwarded to the
    /// server. This policy must be selected when file contents may change without the knowledge of
    /// the FUSE client (i.e., the file system does not have exclusive access to the directory).
    Never,
    /// The client is free to choose when and how to cache file data. This is the default policy and
    /// uses close-to-open consistency as described in the enum documentation.
    Auto,
    /// The client should always cache file data. This means that the FUSE client will not
    /// invalidate any cached data that was returned by the file system the last time the file was
    /// opened. This policy should only be selected when the file system has exclusive access to the
    /// directory.
    Always,
}

impl Default for CachePolicy {
    fn default() -> (r: Self)
        ensures
            r == CachePolicy::Auto,
    {
        CachePolicy::Auto
    }
}

/// The policy that a text names: the policy's word in lower case, in upper
/// case, or capitalised.
pub open spec fn policy_named(s: Seq<char>) -> Option<CachePolicy> {
    if s == "never"@ || s == "Never"@ || s == "NEVER"@ {
        Some(CachePolicy::Never)
    } else if s == "auto"@ || s == "Auto"@ || s == "AUTO"@ {
        Some(CachePolicy::Auto)
    } else if s == "always"@ || s == "Always"@ || s == "ALWAYS"@ {
        Some(CachePolicy::Always)
    } else {
        None
    }
}

impl CachePolicy {
    /// Reads a policy from its name.
    pub fn from_str(s: &str) -> (r: Result<CachePolicy, &'static str>)
        ensures
            match r {
                Ok(policy) => policy_named(s@) == Some(policy),
                Err(text) => policy_named(s@) is None && text@ == "invalid cache policy"@,
            },
    {
        if text_equal(s, "never") || text_equal(s, "Never") || text_equal(s, "NEVER") {
            Ok(CachePolicy::Never)
        } else if text_equal(s, "auto") || text_equal(s, "Auto") || text_equal(s, "AUTO") {
            Ok(CachePolicy::Auto)
        } else if text_equal(s, "always") || text_equal(s, "Always") || text_equal(s, "ALWAYS") {
            Ok(CachePolicy::Always)
        } else {
            Err("invalid cache policy")
        }
    }
}

impl std::str::FromStr for CachePolicy {
    type Err = &'static str;

    fn from_str(s: &str) -> (r: Result<Self, &'static str>)
        ensures
            match r {
                Ok(policy) => policy_named(s@) == Some(policy),
                Err(text) => policy_named(s@) is None && text@ == "invalid cache policy"@,
            },
    {
        CachePolicy::from_str(s)
    }
}

/// The permission semantics to be emulated by this file system personality.
#[derive(Debug, Clone, Copy, PartialEq, Eq, Structural)]
pub enum PermissionSemantics {
    /// Be as close as possible to the common semantics of Linux file systems.
    LinuxComplete,
    /// As `LinuxComplete`, with the following simplifications:
    ///  - Extended attributes are not supported.
    ///  - Idmaps are not supported.
    ///  - Ownership bits are ignored, always returning the uid/gid from the process
    ///    requesting the operation within the guest (obtained from `Context`).
    ///  - Permissions bits are stored in the host, not as extended attributes.
    LinuxSimplified,
    /// Sandbox host-directory semantics. Native host ownership is translated
    /// through one VM-scoped mapping and guest-owned metadata is persisted in
    /// Sandbox's private complete record.
    Sandbox(SandboxConfig),
}

impl Default for PermissionSemantics {
    fn default() -> (r: Self)
        ensures
            r == PermissionSemantics::LinuxComplete,
    {
        PermissionSemantics::LinuxComplete
    }
}

impl PermissionSemantics {
    pub open spec fn sandboxed(self) -> bool {
        self is Sandbox
    }

    /// Whether guest metadata is kept in the sandbox record.
    pub fn is_sandbox(self) -> (r: bool)
        ensures
            r == self.sandboxed(),
    {
        match self {
            PermissionSemantics::Sandbox(_) => true,
            _ => false,
        }
    }

    /// Whether the guest's principal differs from the overflow identity.
    pub fn has_distinct_identity(self) -> (r: bool)
        ensures
            r == self.identity_is_distinct(),
    {
        match self {
            PermissionSemantics::Sandbox(config) => config.identity.guest_uid != OVERFLOW_ID
                && config.identity.guest_gid != OVERFLOW_ID,
            _ => true,
        }
    }

    /// The guest's principal differs from the overflow identity, so that no
    /// other host owner can be taken for it.
    pub open spec fn identity_is_distinct(self) -> bool {
        match self {
            PermissionSemantics::Sandbox(config) => config.identity.guest_uid != OVERFLOW_ID
                && config.identity.guest_gid != OVERFLOW_ID,
            _ => true,
        }
    }
}

/// Options that configure the behavior of the file system.
#[derive(Debug, Clone)]
pub struct Config {
    /// How long the FUSE client should consider directory entries to be valid. If the contents of a
    /// directory can only be modified by the FUSE client (i.e., the file system has exclusive
    /// access), then this should be a large value.
    ///
    /// The default value for this option is 5 seconds.
    pub entry_timeout: Duration,
    /// How long the FUSE client should consider file and directory attributes to be valid. If the
    /// attributes of a file or directory can only be modified by the FUSE client (i.e., the file
    /// system has exclusive access), then this should be set to a large value.
    ///
    /// The default value for this option is 5 seconds.
    pub attr_timeout: Duration,
    /// The caching policy the file system should use. See the documentation of `CachePolicy` for
    /// more details.
    pub cache_policy: CachePolicy,
    /// Whether the file system should enable writeback caching. The guest may then cache and
    /// coalesce writes, so this asks for exclusive access to the directory and for read access to
    /// every file in it, since the guest may read what it opened for writing only.
    ///
    /// The default value for this option is `false`.
    pub writeback: bool,
    /// The path of the root directory.
    ///
    /// The default is `/`.
    pub root_dir: String,
    /// Whether the file system should support Extended Attributes (xattr). Enabling this feature may
    /// have a significant impact on performance, especially on write parallelism. This is the result
    /// of FUSE attempting to remove the special file privileges after each write request.
    ///
    /// The default value for this options is `false`.
    pub xattr: bool,
    /// Optional file descriptor for /proc/self/fd.
    ///
    /// The default is `None`.
    pub proc_sfd_rawfd: Option<i32>,
    /// ID of this filesystem to uniquely identify exports. Not supported for macos.
    pub export_fsid: u64,
    /// The permission semantics to be emulated. See the documentation for `PermissionSemantics` for
    /// more details.
    pub semantics: PermissionSemantics,
}

impl Config {
    /// Extended attributes are served: they are enabled, and the semantics has
    /// them.
    pub open spec fn serves_xattr(self) -> bool {
        self.xattr && !(self.semantics is LinuxSimplified)
    }

    /// The root directory can be handed to the host: its path has no NUL.
    pub open spec fn root_is_path(self) -> bool {
        !self.root_dir@.contains('\0')
    }

    /// Whether extended attributes are served.
    pub fn xattr_supported(&self) -> (r: bool)
        ensures
            r == self.serves_xattr(),
    {
        match self.semantics {
            PermissionSemantics::LinuxSimplified => false,
            _ => self.xattr,
        }
    }
}

impl Default for Config {
    fn default() -> (r: Self)
        ensures
            r.entry_timeout == (Duration { secs: 5, nanos: 0 }),
            r.attr_timeout == (Duration { secs: 5, nanos: 0 }),
            r.cache_policy == CachePolicy::Auto,
            !r.writeback,
            r.root_dir@ == "/"@,
            !r.xattr,
            r.proc_sfd_rawfd is None,
            r.export_fsid == 0,
            r.semantics == PermissionSemantics::LinuxComplete,
    {
        Config {
            entry_timeout: Duration::from_secs(5),
            attr_timeout: Duration::from_secs(5),
            cache_policy: CachePolicy::default(),
            writeback: false,
            root_dir: "/".to_owned(),
            xattr: false,
            proc_sfd_rawfd: None,
            export_fsid: 0,
            semantics: PermissionSemantics::default(),
        }
    }
}

/// A policy is named by its word in lower case, in upper case or capitalised, and
/// by nothing else.
pub proof fn policies_are_named_by_their_words(s: Seq<char>)
    ensures
        policy_named(s) == Some(CachePolicy::Never) <==> s == seq!['n', 'e', 'v', 'e', 'r'] || s
            == seq!['N', 'e', 'v', 'e', 'r'] || s == seq!['N', 'E', 'V', 'E', 'R'],
        policy_named(s) == Some(CachePolicy::Auto) <==> s == seq!['a', 'u', 't', 'o'] || s == seq![
            'A',
            'u',
            't',
            'o',
        ] || s == seq!['A', 'U', 'T', 'O'],
        policy_named(s) == Some(CachePolicy::Always) <==> s == seq![
            'a',
            'l',
            'w',
            'a',
            'y',
            's',
        ] || s == seq!['A', 'l', 'w', 'a', 'y', 's'] || s == seq!['A', 'L', 'W', 'A', 'Y', 'S'],
{
    reveal_strlit("never");
    reveal_strlit("Never");
    reveal_strlit("NEVER");
    reveal_strlit("auto");
    reveal_strlit("Auto");
    reveal_strlit("AUTO");
    reveal_strlit("always");
    reveal_strlit("Always");
    reveal_strlit("ALWAYS");
    assert("never"@ =~= seq!['n', 'e', 'v', 'e', 'r']);
    assert("Never"@ =~= seq!['N', 'e', 'v', 'e', 'r']);
    assert("NEVER"@ =~= seq!['N', 'E', 'V', 'E', 'R']);
    assert("auto"@ =~= seq!['a', 'u', 't', 'o']);
    assert("Auto"@ =~= seq!['A', 'u', 't', 'o']);
    assert("AUTO"@ =~= seq!['A', 'U', 'T', 'O']);
    assert("always"@ =~= seq!['a', 'l', 'w', 'a', 'y', 's']);
    assert("Always"@ =~= seq!['A', 'l', 'w', 'a', 'y', 's']);
    assert("ALWAYS"@ =~= seq!['A', 'L', 'W', 'A', 'Y', 'S']);
    let (never, auto, always) = ("never"@, "auto"@, "always"@);
    assert(never.len() == 5 && auto.len() == 4 && always.len() == 6);
}

/// Attributes are served where they are enabled and the semantics has them.
pub proof fn attributes_need_semantics(cfg: Config)
    ensures
        cfg.serves_xattr() <==> cfg.xattr && cfg.semantics != PermissionSemantics::LinuxSimplified,
        cfg.root_is_path() <==> forall|i: int|
            0 <= i < cfg.root_dir@.len() ==> #[trigger] cfg.root_dir@[i] != '\0',
{
}

/// What is configured where nothing is said: what the guest learns stays good for
/// five seconds, the client caches as it likes, and nothing is enabled.
pub proof fn defaults_are_cautious(r: Config)
    requires
        call_ensures(<Config as Default>::default, (), r),
    ensures
        r.entry_timeout.secs == 5 && r.entry_timeout.nanos == 0,
        r.attr_timeout.secs == 5 && r.attr_timeout.nanos == 0,
        r.cache_policy == CachePolicy::Auto,
        !r.writeback && !r.xattr,
        r.root_dir@ == seq!['/'],
        r.proc_sfd_rawfd is None,
        r.export_fsid == 0,
        r.semantics == PermissionSemantics::LinuxComplete,
{
    reveal_strlit("/");
    assert("/"@ =~= seq!['/']);
}

} // verus!
