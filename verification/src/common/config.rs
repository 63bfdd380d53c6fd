//! Configuration: where the agent's files live and its settings, derived
//! from the environment. Reading the environment and resolving paths on
//! disk is the caller's part; this module decides what they mean.
use vstd::prelude::*;

verus! {

/// `a` joined with the relative component `b` by `/`, as a Unix path join
/// does: `b` alone where `a` is empty, no second `/` where `a` ends in one.
pub open spec fn spec_join(a: Seq<char>, b: Seq<char>) -> Seq<char> {
    if a.len() == 0 {
        b
    } else if a.last() == '/' {
        a + b
    } else {
        a + seq!['/'] + b
    }
}

pub fn join(a: &str, b: &str) -> (r: String)
    ensures
        r@ == spec_join(a@, b@),
{
    let av = crate::text::chars_of(a);
    let mut r = String::from_str(a);
    if av.len() == 0 {
        String::from_str(b)
    } else if av[av.len() - 1] == '/' {
        r.append(b);
        r
    } else {
        crate::text::push_char(&mut r, '/');
        r.append(b);
        r
    }
}

/// The digits of a number text: without one leading `+`.
pub open spec fn unsigned_digits(s: Seq<char>) -> Seq<char> {
    if s.len() > 0 && s[0] == '+' {
        s.skip(1)
    } else {
        s
    }
}

pub open spec fn all_digits(d: Seq<char>) -> bool {
    forall|i: int| 0 <= i < d.len() ==> '0' <= #[trigger] d[i] <= '9'
}

/// `u16::from_str`: an optional `+`, then one or more decimal digits whose
/// value fits in 16 bits.
pub open spec fn spec_parse_u16(s: Seq<char>) -> Option<u16> {
    let d = unsigned_digits(s);
    if d.len() > 0 && all_digits(d) && digits_value(d) <= u16::MAX {
        Some(digits_value(d) as u16)
    } else {
        None
    }
}

pub open spec fn digits_value(d: Seq<char>) -> nat
    decreases d.len(),
{
    if d.len() == 0 {
        0
    } else {
        digits_value(d.drop_last()) * 10 + ((d.last() as u32) - 48) as nat
    }
}


proof fn lemma_digits_grow(d: Seq<char>, k: int, n: int)
    requires
        0 <= k <= n <= d.len(),
        all_digits(d),
    ensures
        digits_value(d.take(k)) <= digits_value(d.take(n)),
    decreases n - k,
{
    if k < n {
        lemma_digits_grow(d, k, n - 1);
        assert(d.take(n).drop_last() =~= d.take(n - 1));
        assert(d.take(n).last() == d[n - 1]);
    }
}

/// `u16::from_str` (see `spec_parse_u16`).
fn parse_u16(s: &str) -> (r: Option<u16>)
    ensures
        r == spec_parse_u16(s@),
{
    let v = crate::text::chars_of(s);
    let start: usize = if v.len() > 0 && v[0] == '+' {
        1
    } else {
        0
    };
    let ghost d = unsigned_digits(s@);
    assert(d =~= v@.skip(start as int));
    if start >= v.len() {
        return None;
    }
    let mut acc: u32 = 0;
    let mut i: usize = start;
    assert(d.take(0) =~= Seq::<char>::empty());
    while i < v.len()
        invariant
            start <= i <= v@.len(),
            d == v@.skip(start as int),
            d == unsigned_digits(s@),
            v@ == s@,
            all_digits(d.take(i - start)),
            acc as nat == digits_value(d.take(i - start)),
            acc <= 65535,
        decreases v@.len() - i,
    {
        let c = v[i];
        let ghost k: int = i - start;
        assert(d[k] == c);
        if c < '0' || c > '9' {
            assert(!all_digits(d));
            return None;
        }
        let digit: u32 = (c as u32) - 48;
        assert(d.take(k + 1).drop_last() =~= d.take(k));
        assert(d.take(k + 1).last() == c);
        assert(all_digits(d.take(k + 1))) by {
            assert forall|j: int| 0 <= j < k + 1 implies '0' <= #[trigger] d.take(k + 1)[j] <= '9' by {
                if j < k {
                    assert(d.take(k + 1)[j] == d.take(k)[j]);
                }
            }
        }
        let next: u32 = acc * 10 + digit;
        assert(next as nat == digits_value(d.take(k + 1)));
        if next > 65535 {
            proof {
                if all_digits(d) {
                    lemma_digits_grow(d, k + 1, d.len() as int);
                    assert(d.take(d.len() as int) =~= d);
                }
            }
            return None;
        }
        acc = next;
        i = i + 1;
    }
    assert(d.take(d.len() as int) =~= d);
    Some(acc as u16)
}

proof fn lemma_decimal_digits(n: nat)
    ensures
        crate::codec::spec_decimal(n).len() > 0,
        forall|i: int|
            0 <= i < crate::codec::spec_decimal(n).len() ==> '0' <= #[trigger] crate::codec::spec_decimal(
                n,
            )[i] <= '9',
        crate::codec::spec_decimal(n)[0] != '+',
        digits_value(crate::codec::spec_decimal(n)) == n,
    decreases n,
{
    let s = crate::codec::spec_decimal(n);
    if n < 10 {
        let c = ((48 + n) as int) as char;
        assert(s == seq![c]);
        assert(s.drop_last() =~= Seq::<char>::empty());
        assert((c as u32) == 48 + n);
        assert(s.last() == c);
        assert(digits_value(s) == digits_value(s.drop_last()) * 10 + ((c as u32) - 48) as nat);
        assert(digits_value(Seq::<char>::empty()) == 0);
    } else {
        lemma_decimal_digits(n / 10);
        let p = crate::codec::spec_decimal(n / 10);
        let d = (n % 10) as int;
        let c = ((48 + d) as int) as char;
        assert(s == p.push(c));
        assert(s.drop_last() =~= p);
        assert((c as u32) == 48 + d);
        assert forall|i: int| 0 <= i < s.len() implies '0' <= #[trigger] s[i] <= '9' by {
            if i < p.len() {
                assert(s[i] == p[i]);
            }
        }
        assert(s[0] == p[0]);
        assert(n == (n / 10) * 10 + n % 10);
        assert(s.last() == c);
        assert(digits_value(s) == digits_value(s.drop_last()) * 10 + ((c as u32) - 48) as nat);
    }
}

/// A port written in decimal (as in the tool endpoint URLs) reads back as
/// the same port.
pub proof fn law_port_roundtrip(p: u16)
    ensures
        spec_parse_u16(crate::codec::spec_decimal(p as nat)) == Some(p),
{
    lemma_decimal_digits(p as nat);
}

/// The values read from the environment. Paths are given as resolved on
/// disk (canonical where they exist).
#[derive(Debug)]
pub struct EnvSettings {
    /// `LEVA_AGENT_PRIV_DIR`: the private data repository, if set.
    pub priv_dir: Option<String>,
    /// `LEVA_BASE_DIR`, or `../..` where unset.
    pub base_dir: String,
    pub openai_api_key: Option<String>,
    pub anthropic_api_key: Option<String>,
    pub model_name: Option<String>,
    pub fallback_model: Option<String>,
    pub llm_port: Option<String>,
    pub auto_port: Option<String>,
    pub perplexity_api_key: Option<String>,
}

/// Where the agent's files live and its settings.
#[derive(Debug)]
pub struct Config {
    pub base_dir: String,
    /// Private repo dir (LEVA_AGENT_PRIV_DIR), if set.
    /// Used for credentials, memory, and private skills/resources.
    pub priv_dir: Option<String>,
    pub prompts_dir: String,
    pub soul_dir: String,
    pub memory_dir: String,
    pub memory_topics_dir: String,
    pub reference_dir: String,
    pub credentials_dir: String,
    pub openai_api_key: String,
    pub anthropic_api_key: String,
    pub model_name: String,
    pub fallback_model: String,
    pub llm_port: u16,
    pub auto_port: u16,
    pub perplexity_api_key: String,
}

pub open spec fn opt_or(o: Option<String>, d: Seq<char>) -> Seq<char> {
    match o {
        Some(s) => s@,
        None => d,
    }
}

/// A port setting: its value where it parses as a port number, else the
/// default.
pub open spec fn spec_port(o: Option<String>, default: u16) -> u16 {
    match o {
        Some(s) => match spec_parse_u16(s@) {
            Some(p) => p,
            None => default,
        },
        None => default,
    }
}

fn port(o: &Option<String>, default: u16) -> (r: u16)
    ensures
        r == spec_port(*o, default),
{
    match o {
        Some(s) => match parse_u16(s.as_str()) {
            Some(p) => p,
            None => default,
        },
        None => default,
    }
}

fn or_empty(o: &Option<String>) -> (r: String)
    ensures
        r@ == opt_or(*o, seq![]),
{
    match o {
        Some(s) => s.clone(),
        None => String::new(),
    }
}

impl Config {
    /// The configuration the settings give: the public directories under the
    /// base directory; memory and credentials under the private directory
    /// where one is set, else under the base directory; `gpt-4.1-mini` as the
    /// default model; ports 8000 and 8001 unless set to valid port numbers;
    /// keys empty where unset.
    pub fn from_settings(env: &EnvSettings) -> (r: Config)
        ensures
            r.base_dir@ == env.base_dir@,
            r.priv_dir == env.priv_dir,
            r.prompts_dir@ == spec_join(env.base_dir@, "prompts"@),
            r.soul_dir@ == spec_join(env.base_dir@, "soul"@),
            r.reference_dir@ == spec_join(env.base_dir@, "reference"@),
            r.memory_dir@ == spec_join(opt_or(env.priv_dir, env.base_dir@), "memory"@),
            r.credentials_dir@ == spec_join(opt_or(env.priv_dir, env.base_dir@), "credentials"@),
            r.memory_topics_dir@ == spec_join(
                spec_join(opt_or(env.priv_dir, env.base_dir@), "memory"@),
                "topics"@,
            ),
            r.openai_api_key@ == opt_or(env.openai_api_key, seq![]),
            r.anthropic_api_key@ == opt_or(env.anthropic_api_key, seq![]),
            r.model_name@ == opt_or(env.model_name, "gpt-4.1-mini"@),
            r.fallback_model@ == opt_or(env.fallback_model, seq![]),
            r.llm_port == spec_port(env.llm_port, 8000),
            r.auto_port == spec_port(env.auto_port, 8001),
            r.perplexity_api_key@ == opt_or(env.perplexity_api_key, seq![]),
    {
        let data_root = match &env.priv_dir {
            Some(p) => p.clone(),
            None => env.base_dir.clone(),
        };
        let memory_dir = join(data_root.as_str(), "memory");
        let credentials_dir = join(data_root.as_str(), "credentials");
        let memory_topics_dir = join(memory_dir.as_str(), "topics");
        Config {
            base_dir: env.base_dir.clone(),
            priv_dir: match &env.priv_dir {
                Some(p) => Some(p.clone()),
                None => None,
            },
            prompts_dir: join(env.base_dir.as_str(), "prompts"),
            soul_dir: join(env.base_dir.as_str(), "soul"),
            memory_dir,
            memory_topics_dir,
            reference_dir: join(env.base_dir.as_str(), "reference"),
            credentials_dir,
            openai_api_key: or_empty(&env.openai_api_key),
            anthropic_api_key: or_empty(&env.anthropic_api_key),
            model_name: match &env.model_name {
                Some(m) => m.clone(),
                None => String::from_str("gpt-4.1-mini"),
            },
            fallback_model: or_empty(&env.fallback_model),
            llm_port: port(&env.llm_port, 8000),
            auto_port: port(&env.auto_port, 8001),
            perplexity_api_key: or_empty(&env.perplexity_api_key),
        }
    }
}

} // verus!
