//! The `GLIBC_TUNABLES` environment setting that sizes the static TLS surplus.

use vstd::prelude::*;
use vstd::string::StringSliceAdditionalSpecFns;
use crate::linker::{DEFAULT_STATIC_TLS_SURPLUS, Linker};
use crate::reloc::Arch;
use crate::symbols::bytes_eq;

verus! {

/// The key whose value overrides the static TLS surplus.
pub open spec fn surplus_key() -> Seq<u8> {
    "glibc.rtld.optional_static_tls=".spec_bytes()
}

/// The prefix of the environment entry that holds the tunables.
pub open spec fn tunables_prefix() -> Seq<u8> {
    "GLIBC_TUNABLES=".spec_bytes()
}

/// `s` holds `p` at index `i`.
pub open spec fn holds_at(s: Seq<u8>, i: int, p: Seq<u8>) -> bool {
    0 <= i && i + p.len() <= s.len() && s.subrange(i, i + p.len()) == p
}

pub open spec fn is_digit(c: u8) -> bool {
    0x30 <= c <= 0x39
}

/// The end of the run of decimal digits starting at `i`.
pub open spec fn digits_end(s: Seq<u8>, i: int) -> int
    decreases s.len() - i,
{
    if i < 0 || i >= s.len() || !is_digit(s[i]) {
        i
    } else {
        digits_end(s, i + 1)
    }
}

/// The value of the decimal digits `s[i..j]`.
pub open spec fn decimal(s: Seq<u8>, i: int, j: int) -> nat
    decreases j - i,
{
    if j <= i {
        0
    } else {
        decimal(s, i, j - 1) * 10 + (s[j - 1] - 0x30) as nat
    }
}

/// The surplus set by the colon-separated `key=value` list `s`, scanning
/// from index `i` (`at_start` when `i` begins an item): the decimal prefix
/// of the value of the first item whose key is the surplus key.
pub open spec fn surplus_scan(s: Seq<u8>, i: int, at_start: bool) -> Option<nat>
    decreases s.len() - i,
{
    if i < 0 || i > s.len() {
        None
    } else if at_start && holds_at(s, i, surplus_key()) {
        let v = i + surplus_key().len();
        Some(decimal(s, v, digits_end(s, v)))
    } else if i >= s.len() {
        None
    } else {
        surplus_scan(s, i + 1, s[i] == 0x3a)
    }
}

/// The surplus the tunables string `s` sets, when it fits in `u64`.
pub open spec fn surplus_setting(s: Seq<u8>) -> Option<u64> {
    match surplus_scan(s, 0, true) {
        Some(v) => if v <= u64::MAX { Some(v as u64) } else { None },
        None => None,
    }
}

/// The index of the first environment entry starting with `GLIBC_TUNABLES=`.
pub open spec fn env_first_tunables(env: Seq<&str>, n: int) -> Option<int>
    decreases n,
{
    if n <= 0 {
        None
    } else {
        match env_first_tunables(env, n - 1) {
            Some(k) => Some(k),
            None => if holds_at(env[n - 1].spec_bytes(), 0, tunables_prefix()) { Some(n - 1) } else { None },
        }
    }
}

/// The surplus the environment `env` sets, if any.
pub open spec fn tunables_surplus(env: Seq<&str>) -> Option<u64> {
    match env_first_tunables(env, env.len() as int) {
        Some(k) => {
            let e = env[k].spec_bytes();
            surplus_setting(e.subrange(tunables_prefix().len() as int, e.len() as int))
        },
        None => None,
    }
}

pub proof fn lemma_decimal_monotone(s: Seq<u8>, i: int, j: int, k: int)
    requires
        i <= j <= k,
    ensures
        decimal(s, i, j) <= decimal(s, i, k),
    decreases k - j,
{
    if j < k {
        lemma_decimal_monotone(s, i, j, k - 1);
    }
}

pub proof fn lemma_digits_end_bounds(s: Seq<u8>, i: int)
    requires
        0 <= i <= s.len(),
    ensures
        i <= digits_end(s, i) <= s.len(),
        forall|k: int| i <= k < digits_end(s, i) ==> is_digit(#[trigger] s[k]),
        digits_end(s, i) < s.len() ==> !is_digit(s[digits_end(s, i)]),
    decreases s.len() - i,
{
    if i < s.len() && is_digit(s[i]) {
        lemma_digits_end_bounds(s, i + 1);
    }
}

impl Linker {
    /// A loader for `arch` whose TLS surplus is the one `GLIBC_TUNABLES` in
    /// `envp` sets, else 2048 bytes.
    pub fn new(arch: Arch, envp: &[&str]) -> (r: Linker)
        ensures
            r.wf(),
            r.arch == arch,
            r.objects@.len() == 0,
            r.global_symbols@.len() == 0,
            r.static_tls_size == 0,
            r.static_tls_align == 16,
            r.loaded_names@.len() == 0,
            r.surplus_remaining == 0,
            r.surplus_size == match tunables_surplus(envp@) {
                Some(v) => v,
                None => DEFAULT_STATIC_TLS_SURPLUS,
            },
    {
        let surplus = match Self::parse_tunables(envp) {
            Some(v) => v,
            None => DEFAULT_STATIC_TLS_SURPLUS,
        };
        Linker::with_surplus(arch, surplus)
    }

    /// The surplus set by the first `GLIBC_TUNABLES=` entry of `envp`.
    pub fn parse_tunables(envp: &[&str]) -> (r: Option<u64>)
        ensures
            r == tunables_surplus(envp@),
    {
        let prefix = "GLIBC_TUNABLES=".as_bytes();
        proof {
            reveal_strlit("GLIBC_TUNABLES=");
        }
        let mut i: usize = 0;
        while i < envp.len()
            invariant
                i <= envp@.len(),
                prefix@ == tunables_prefix(),
                env_first_tunables(envp@, i as int) is None,
            decreases envp@.len() - i,
        {
            let e = envp[i].as_bytes();
            if e.len() >= prefix.len() && bytes_eq(vstd::slice::slice_subrange(e, 0, prefix.len()), prefix) {
                assert(env_first_tunables(envp@, i + 1) == Some(i as int));
                proof { self_first_stable(envp@, i + 1, envp@.len() as int); }
                let rest = vstd::slice::slice_subrange(e, prefix.len(), e.len());
                return Self::parse_surplus_from_tunable_string(rest);
            }
            i = i + 1;
        }
        None
    }

    /// The surplus set by the tunables string `s`: the decimal prefix of the
    /// value of its first `glibc.rtld.optional_static_tls=` item; `None`
    /// when there is none or the value does not fit in `u64`.
    pub fn parse_surplus_from_tunable_string(s: &[u8]) -> (r: Option<u64>)
        ensures
            r == surplus_setting(s@),
    {
        let key = "glibc.rtld.optional_static_tls=".as_bytes();
        proof {
            reveal_strlit("glibc.rtld.optional_static_tls=");
        }
        let mut i: usize = 0;
        let mut at_start = true;
        while i <= s.len()
            invariant
                i <= s@.len(),
                key@ == surplus_key(),
                surplus_scan(s@, 0, true) == surplus_scan(s@, i as int, at_start),
            decreases s@.len() - i,
        {
            if at_start && key.len() <= s.len() - i && bytes_eq(vstd::slice::slice_subrange(s, i, i + key.len()), key) {
                let v = i + key.len();
                proof { lemma_digits_end_bounds(s@, v as int); }
                let mut j: usize = v;
                let mut val: u64 = 0;
                while j < s.len() && s[j] >= 0x30 && s[j] <= 0x39
                    invariant
                        v <= j <= digits_end(s@, v as int),
                        digits_end(s@, v as int) <= s@.len(),
                        forall|k: int| v <= k < digits_end(s@, v as int) ==> is_digit(#[trigger] s@[k]),
                        digits_end(s@, v as int) < s@.len() ==> !is_digit(s@[digits_end(s@, v as int)]),
                        val == decimal(s@, v as int, j as int),
                        surplus_scan(s@, 0, true) == Some(decimal(s@, v as int, digits_end(s@, v as int))),
                    decreases s@.len() - j,
                {
                    let d = (s[j] - 0x30) as u64;
                    if val > (u64::MAX - d) / 10 {
                        assert(val * 10 + d > u64::MAX) by (nonlinear_arith)
                            requires
                                val > (u64::MAX - d) / 10,
                                d <= 9,
                        ;
                        assert(decimal(s@, v as int, j + 1) == val * 10 + d);
                        proof {
                            lemma_decimal_monotone(s@, v as int, j + 1, digits_end(s@, v as int));
                        }
                        return None;
                    }
                    val = val * 10 + d;
                    j = j + 1;
                }
                return Some(val);
            }
            if i >= s.len() {
                return None;
            }
            at_start = s[i] == 0x3a;
            i = i + 1;
        }
        None
    }
}

proof fn self_first_stable(env: Seq<&str>, i: int, n: int)
    requires
        0 <= i <= n,
        env_first_tunables(env, i) is Some,
    ensures
        env_first_tunables(env, n) == env_first_tunables(env, i),
    decreases n - i,
{
    if i < n {
        self_first_stable(env, i, n - 1);
    }
}

} // verus!
