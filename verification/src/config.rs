//! Server configuration: the canonical root directory the server may
//! serve from, the TCP port, and the behaviour toggles. The root is
//! validated to be in canonical absolute form, so that the containment
//! check in the router compares like with like.

use vstd::prelude::*;

use crate::util::SLASH;

verus! {

/// The byte value of `.`.
pub const DOT: u8 = 0x2e;

/// True when position `i` of a path starts an empty, `.` or `..`
/// segment: a doubled slash, or a slash followed by one or two dots that
/// end the path or run up to the next slash.
pub open spec fn bad_segment_at(r: Seq<u8>, i: int) -> bool {
    &&& 0 <= i < r.len()
    &&& r[i] == SLASH
    &&& {
        ||| (i + 1 < r.len() && r[i + 1] == SLASH)
        ||| (i + 1 < r.len() && r[i + 1] == DOT && (i + 2 == r.len() || r[i + 2] == SLASH))
        ||| (i + 2 < r.len() && r[i + 1] == DOT && r[i + 2] == DOT && (i + 3 == r.len() || r[i
            + 3] == SLASH))
    }
}

/// True for a path in canonical absolute form: non-empty, absolute, with
/// no trailing slash (except the root directory itself), and no empty,
/// `.` or `..` segments.
pub open spec fn root_canonical(r: Seq<u8>) -> bool {
    &&& r.len() > 0
    &&& r[0] == SLASH
    &&& (r.len() == 1 || r.last() != SLASH)
    &&& forall|i: int| 0 <= i < r.len() ==> !bad_segment_at(r, i)
}

/// Why a configuration was rejected.
#[derive(Clone, Copy, PartialEq, Eq, Structural, Debug)]
pub enum ConfigError {
    /// The root directory path was not in canonical absolute form.
    RootNotCanonical,
}

/// The abstract value of a configuration.
pub ghost struct ConfigView {
    /// The canonical absolute path of the root directory, as bytes.
    pub root: Seq<u8>,
    /// The TCP port to serve on.
    pub port: u16,
    /// Whether responses carry the cross-origin isolation headers.
    pub coi: bool,
    /// Whether a directory without an index file gets a listing page
    /// rather than an error.
    pub index: bool,
    /// Whether requests from non-loopback peers are rejected.
    pub local_only: bool,
}

/// Configuration data for the server.
pub struct Config {
    root: Vec<u8>,
    port: u16,
    coi: bool,
    index: bool,
    local_only: bool,
}

impl View for Config {
    type V = ConfigView;

    closed spec fn view(&self) -> ConfigView {
        ConfigView {
            root: self.root@,
            port: self.port,
            coi: self.coi,
            index: self.index,
            local_only: self.local_only,
        }
    }
}

impl Config {
    /// True when the configuration's root is in canonical form; holds of
    /// every configuration this constructor accepts.
    pub open spec fn wf(self) -> bool {
        root_canonical(self@.root)
    }

    /// Creates configuration data, validating that the root path is in
    /// canonical absolute form.
    pub fn try_new(root: Vec<u8>, port: u16, coi: bool, index: bool, local_only: bool) -> (r:
        Result<Config, ConfigError>)
        ensures
            match r {
                Ok(c) => root_canonical(root@) && c.wf() && c@ == (ConfigView {
                    root: root@,
                    port,
                    coi,
                    index,
                    local_only,
                }),
                Err(ConfigError::RootNotCanonical) => !root_canonical(root@),
            },
    {
        if !path_is_canonical(&root) {
            return Err(ConfigError::RootNotCanonical);
        }
        Ok(Config { root, port, coi, index, local_only })
    }

    /// Returns the canonical path to the root directory for serving
    /// files.
    pub fn root(&self) -> (r: &Vec<u8>)
        ensures
            r@ == self@.root,
    {
        &self.root
    }

    /// Returns the desired TCP port.
    pub fn port(&self) -> (r: u16)
        ensures
            r == self@.port,
    {
        self.port
    }

    /// Returns whether responses carry the cross-origin isolation
    /// headers.
    pub fn coi(&self) -> (r: bool)
        ensures
            r == self@.coi,
    {
        self.coi
    }

    /// Returns whether directory listing pages are enabled.
    pub fn index(&self) -> (r: bool)
        ensures
            r == self@.index,
    {
        self.index
    }

    /// Returns whether only loopback peers are served.
    pub fn local_only(&self) -> (r: bool)
        ensures
            r == self@.local_only,
    {
        self.local_only
    }
}

/// Executable test matching `root_canonical`.
fn path_is_canonical(p: &Vec<u8>) -> (r: bool)
    ensures
        r == root_canonical(p@),
{
    if p.len() == 0 || p[0] != SLASH {
        return false;
    }
    if p.len() > 1 && p[p.len() - 1] == SLASH {
        proof {
            assert(p@.last() == p@[p@.len() - 1]);
        }
        return false;
    }
    proof {
        assert(p@.last() == p@[p@.len() - 1]);
    }
    let mut i: usize = 0;
    while i < p.len()
        invariant
            i <= p.len(),
            forall|k: int| 0 <= k < i ==> !bad_segment_at(p@, k),
        decreases p.len() - i,
    {
        if p[i] == SLASH {
            if p.len() - i > 1 && p[i + 1] == SLASH {
                proof {
                    assert(bad_segment_at(p@, i as int));
                }
                return false;
            }
            if p.len() - i > 1 && p[i + 1] == DOT && (p.len() - i == 2 || p[i + 2] == SLASH) {
                proof {
                    assert(bad_segment_at(p@, i as int));
                }
                return false;
            }
            if p.len() - i > 2 && p[i + 1] == DOT && p[i + 2] == DOT && (p.len() - i == 3 || p[i
                + 3] == SLASH) {
                proof {
                    assert(bad_segment_at(p@, i as int));
                }
                return false;
            }
        }
        proof {
            assert(!bad_segment_at(p@, i as int));
        }
        i = i + 1;
    }
    true
}

} // verus!
