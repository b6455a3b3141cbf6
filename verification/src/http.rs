//! The request surface as pure logic: deciding the effective count, parsing
//! the comma-separated domain list, dispatching one batch per domain and
//! assembling the responses. Carrying these values over HTTP is the
//! embedding program's concern.

use vstd::prelude::*;
use vstd::slice::{slice_subrange, slice_to_vec};
use vstd::string::StringSliceAdditionalSpecFns;

use crate::clock;
use crate::codec::lemma_decode_in_range;
use crate::dto::{
    GenerateIdsRequest, GenerateIdsResponse, IdsForDomain, ParseIdRequest, ParseIdResponse,
};
use crate::error::RequestError;
use crate::idgen::{batch_chained, batch_ok, lemma_generator_config, supports_generation, IdGenerator};

verus! {

/// The byte that separates domain tokens.
pub const SEPARATOR: u8 = 44;

/// The byte value of an explicit plus sign, which an unsigned decimal token
/// may carry in front of its digits.
pub const PLUS_SIGN: u8 = 43;

/// Index of the first separator byte, or the length if there is none.
pub open spec fn first_sep(s: Seq<u8>) -> int
    decreases s.len(),
{
    if s.len() == 0 {
        0
    } else if s[0] == SEPARATOR {
        0
    } else {
        1 + first_sep(s.drop_first())
    }
}

/// The token list: maximal separator-free runs, in order. An empty input is
/// one empty token, and every separator ends one token and starts another.
pub open spec fn split_tokens(s: Seq<u8>) -> Seq<Seq<u8>>
    decreases s.len(),
    via split_tokens_decreases
{
    let i = first_sep(s);
    if i == s.len() {
        seq![s]
    } else {
        seq![s.take(i)] + split_tokens(s.skip(i + 1))
    }
}

#[via_fn]
proof fn split_tokens_decreases(s: Seq<u8>) {
    lemma_first_sep(s);
}

/// All bytes are decimal digits.
pub open spec fn all_digits(t: Seq<u8>) -> bool {
    forall|k: int| 0 <= k < t.len() ==> 48 <= #[trigger] t[k] <= 57
}

/// The number a digit run denotes, most significant digit first.
pub open spec fn digits_val(t: Seq<u8>) -> int
    decreases t.len(),
{
    if t.len() == 0 {
        0
    } else {
        digits_val(t.drop_last()) * 10 + (t.last() - 48)
    }
}

/// The digits of a token: what follows one optional leading plus sign.
pub open spec fn token_digits(t: Seq<u8>) -> Seq<u8> {
    if t.len() >= 1 && t[0] == PLUS_SIGN {
        t.skip(1)
    } else {
        t
    }
}

/// The token denotes a 64-bit unsigned number: at least one digit after the
/// optional plus sign, digits only, and a value that fits.
pub open spec fn is_u64_token(t: Seq<u8>) -> bool {
    &&& token_digits(t).len() >= 1
    &&& all_digits(token_digits(t))
    &&& digits_val(token_digits(t)) <= u64::MAX
}

/// The number the token denotes.
pub open spec fn token_value(t: Seq<u8>) -> int {
    digits_val(token_digits(t))
}

/// Keeps the first occurrence of every value, in order of first occurrence.
pub open spec fn dedup_keep_first(s: Seq<u64>) -> Seq<u64>
    decreases s.len(),
{
    if s.len() == 0 {
        Seq::empty()
    } else {
        let prefix = dedup_keep_first(s.drop_last());
        if prefix.contains(s.last()) {
            prefix
        } else {
            prefix.push(s.last())
        }
    }
}

/// The values of a token list.
pub open spec fn token_values(toks: Seq<Seq<u8>>) -> Seq<u64> {
    toks.map_values(|t: Seq<u8>| token_value(t) as u64)
}

/// Every token of the list denotes a number.
pub open spec fn all_tokens_ok(toks: Seq<Seq<u8>>) -> bool {
    forall|k: int| 0 <= k < toks.len() ==> is_u64_token(#[trigger] toks[k])
}

/// `first_sep` points at the first separator: nothing before it is one, and
/// it is one unless it is the end.
proof fn lemma_first_sep(s: Seq<u8>)
    ensures
        0 <= first_sep(s) <= s.len(),
        forall|k: int| 0 <= k < first_sep(s) ==> #[trigger] s[k] != SEPARATOR,
        first_sep(s) < s.len() ==> s[first_sep(s)] == SEPARATOR,
    decreases s.len(),
{
    if s.len() > 0 && s[0] != SEPARATOR {
        lemma_first_sep(s.drop_first());
        assert forall|k: int| 0 <= k < first_sep(s) implies #[trigger] s[k] != SEPARATOR by {
            if k > 0 {
                assert(s.drop_first()[k - 1] != SEPARATOR);
            }
        }
    }
}

/// The converse: a scan that saw no separator up to `m`, and a separator or
/// the end at `m`, found `first_sep`.
proof fn lemma_first_sep_is(s: Seq<u8>, m: int)
    requires
        0 <= m <= s.len(),
        forall|k: int| 0 <= k < m ==> #[trigger] s[k] != SEPARATOR,
        m < s.len() ==> s[m] == SEPARATOR,
    ensures
        first_sep(s) == m,
    decreases m,
{
    if m > 0 {
        lemma_first_sep_is(s.drop_first(), m - 1);
    }
}

/// Extending a digit run can only grow its value.
proof fn lemma_digits_val_prefix_le(t: Seq<u8>, k: int)
    requires
        all_digits(t),
        0 <= k <= t.len(),
    ensures
        0 <= digits_val(t.take(k)),
        digits_val(t.take(k)) <= digits_val(t),
    decreases t.len() - k,
{
    if k == t.len() {
        assert(t.take(k) =~= t);
        lemma_digits_val_nonneg(t);
    } else {
        lemma_digits_val_prefix_le(t, k + 1);
        assert(t.take(k + 1).drop_last() =~= t.take(k));
        assert(digits_val(t.take(k + 1)) == digits_val(t.take(k)) * 10 + (t[k] - 48));
        lemma_digits_val_nonneg(t.take(k));
    }
}

/// A digit run's value is never negative.
proof fn lemma_digits_val_nonneg(t: Seq<u8>)
    requires
        all_digits(t),
    ensures
        digits_val(t) >= 0,
    decreases t.len(),
{
    if t.len() > 0 {
        assert(all_digits(t.drop_last()));
        lemma_digits_val_nonneg(t.drop_last());
    }
}

/// Parses one token as an unsigned 64-bit decimal: an optional plus sign,
/// then digits whose value fits.
fn parse_u64_token(t: &[u8]) -> (r: Option<u64>)
    ensures
        r is Some <==> is_u64_token(t@),
        r is Some ==> r->0 as int == token_value(t@),
{
    let n = t.len();
    let start: usize = if n >= 1 && t[0] == PLUS_SIGN {
        1
    } else {
        0
    };
    proof {
        assert(token_digits(t@) =~= t@.skip(start as int));
    }
    let ghost digits = t@.skip(start as int);
    if start == n {
        return None;
    }
    let mut value: u64 = 0;
    let mut i: usize = start;
    while i < n
        invariant
            start < n,
            start <= i <= n,
            n == t@.len(),
            digits == t@.skip(start as int),
            digits == token_digits(t@),
            all_digits(digits.take(i - start)),
            value as int == digits_val(digits.take(i - start)),
        decreases n - i,
    {
        let b = t[i];
        if b < 48 || b > 57 {
            proof {
                assert(digits[i - start] == b);
            }
            return None;
        }
        let d = b - 48;
        if value > (u64::MAX - d as u64) / 10 {
            proof {
                assert(digits[i - start] == b);
                assert(all_digits(digits.take(i + 1 - start)));
                assert(digits.take(i + 1 - start).drop_last() =~= digits.take(i - start));
                assert(digits_val(digits.take(i + 1 - start)) == value as int * 10 + d);
                assert(value as int * 10 + d > u64::MAX) by {
                    assert(value as int > (u64::MAX - d as u64) as int / 10);
                };
                if is_u64_token(t@) {
                    lemma_digits_val_prefix_le(digits, i + 1 - start);
                }
            }
            return None;
        }
        proof {
            assert(digits.take(i + 1 - start).drop_last() =~= digits.take(i - start));
            assert(value as int * 10 + d <= u64::MAX) by {
                assert(value as int <= (u64::MAX - d as u64) as int / 10);
            };
        }
        value = value * 10 + d as u64;
        i = i + 1;
    }
    proof {
        assert(digits.take(n - start as int) =~= digits);
    }
    Some(value)
}

/// Whether the vector already holds this value.
fn vec_contains(v: &Vec<u64>, x: u64) -> (r: bool)
    ensures
        r == v@.contains(x),
{
    let mut i: usize = 0;
    while i < v.len()
        invariant
            i <= v@.len(),
            forall|k: int| 0 <= k < i ==> #[trigger] v@[k] != x,
        decreases v@.len() - i,
    {
        if v[i] == x {
            return true;
        }
        i = i + 1;
    }
    false
}

/// Parses a comma-separated domain list: every token must denote a 64-bit
/// unsigned number, and duplicates are dropped, keeping first occurrences in
/// order. On failure the first offending token is returned.
pub fn parse_domains(s: &str) -> (r: Result<Vec<u64>, Vec<u8>>)
    requires
        s.spec_bytes().len() < usize::MAX,
    ensures
        ({
            let toks = split_tokens(s.spec_bytes());
            match r {
                Ok(v) => all_tokens_ok(toks) && v@ == dedup_keep_first(token_values(toks)),
                Err(t) => exists|k: int|
                    0 <= k < toks.len() && !is_u64_token(#[trigger] toks[k]) && t@ == toks[k] && (
                    forall|j: int| 0 <= j < k ==> is_u64_token(#[trigger] toks[j])),
            }
        }),
{
    let bytes = s.as_bytes();
    let n = bytes.len();
    let ghost toks = split_tokens(s.spec_bytes());
    let mut result: Vec<u64> = Vec::new();
    let mut start: usize = 0;
    let ghost mut done: int = 0;
    proof {
        assert(toks.skip(0) =~= toks);
        assert(bytes@.skip(0) =~= bytes@);
    }
    while start <= n
        invariant
            n == s.spec_bytes().len(),
            n < usize::MAX,
            bytes@ == s.spec_bytes(),
            toks == split_tokens(s.spec_bytes()),
            start <= n + 1,
            0 <= done <= toks.len(),
            start <= n ==> toks.skip(done) == split_tokens(bytes@.skip(start as int)),
            start == n + 1 ==> done == toks.len(),
            forall|k: int| 0 <= k < done ==> is_u64_token(#[trigger] toks[k]),
            result@ == dedup_keep_first(token_values(toks.take(done))),
        decreases n + 1 - start,
    {
        let ghost rest = bytes@.skip(start as int);
        let mut end = start;
        while end < n && bytes[end] != SEPARATOR
            invariant
                start <= end <= n,
                n == bytes@.len(),
                forall|k: int| start <= k < end ==> #[trigger] bytes@[k] != SEPARATOR,
            decreases n - end,
        {
            end = end + 1;
        }
        proof {
            assert forall|k: int| 0 <= k < end - start implies #[trigger] rest[k] != SEPARATOR by {
                assert(bytes@[start + k] != SEPARATOR);
            }
            lemma_first_sep_is(rest, end - start);
        }
        let token = slice_subrange(bytes, start, end);
        proof {
            assert(token@ =~= rest.take(end - start));
            assert(toks.skip(done)[0] == toks[done]);
        }
        let parsed = parse_u64_token(token);
        match parsed {
            None => {
                return Err(slice_to_vec(token));
            },
            Some(v) => {
                proof {
                    let vals = token_values(toks.take(done));
                    assert(token_values(toks.take(done + 1)) =~= vals.push(v));
                    assert(token_values(toks.take(done + 1)).drop_last() =~= vals);
                }
                if !vec_contains(&result, v) {
                    result.push(v);
                }
                proof {
                    if end - start < rest.len() {
                        assert(toks.skip(done + 1) =~= toks.skip(done).skip(1));
                        assert(rest.skip(end - start + 1) =~= bytes@.skip(end + 1));
                    } else {
                        assert(toks.skip(done) =~= seq![rest]);
                        assert(toks.take(done + 1) =~= toks);
                    }
                    done = done + 1;
                }
                start = end + 1;
            },
        }
    }
    proof {
        assert(toks.take(done) =~= toks);
    }
    Ok(result)
}

/// The bytes a request's domain list arrives as.
pub open spec fn string_bytes(s: String) -> Seq<u8> {
    vstd::utf8::encode_utf8(s@)
}

/// The count a request asks for: its own, or 10 where it names none.
pub open spec fn effective_count(count: Option<u32>) -> u32 {
    match count {
        Some(c) => c,
        None => 10,
    }
}

/// Every token of the request's domain list, if it carries one, denotes a
/// number.
pub open spec fn domains_wellformed(domains: Option<String>) -> bool {
    match domains {
        Some(ds) => all_tokens_ok(split_tokens(string_bytes(ds))),
        None => true,
    }
}

/// The domains a request addresses, in order: its list parsed and
/// deduplicated, or every domain the layout serves where it names none.
pub open spec fn requested_domains(max_domain: u64, domains: Option<String>) -> Seq<u64> {
    match domains {
        Some(ds) => dedup_keep_first(token_values(split_tokens(string_bytes(ds)))),
        None => Seq::new((max_domain + 1) as nat, |i: int| i as u64),
    }
}

/// Serves one generate request: applies the default count, rejects a count
/// of zero, parses and deduplicates the domain list (absent means all
/// domains), and emits one batch per domain. The response carries, per
/// requested domain in order, `count` sound and strictly increasing
/// identifiers; the errors are exactly a zero count, the first malformed
/// domain token, and the first out-of-range domain.
pub fn generate_ids(generator: &IdGenerator, request: &GenerateIdsRequest) -> (r: Result<
    GenerateIdsResponse,
    RequestError,
>)
    requires
        generator.wf(),
        match request.domains {
            Some(ds) => string_bytes(ds).len() < usize::MAX,
            None => true,
        },
    ensures
        ({
            let cfg = generator.spec_config();
            let cnt = effective_count(request.count);
            let doms = requested_domains(cfg.max_domain, request.domains);
            match r {
                Ok(resp) => {
                    &&& cnt >= 1
                    &&& domains_wellformed(request.domains)
                    &&& resp.ids_by_domain@.len() == doms.len()
                    &&& forall|k: int|
                        0 <= k < doms.len() ==> {
                            let e = #[trigger] resp.ids_by_domain@[k];
                            &&& e.domain == doms[k]
                            &&& e.domain <= cfg.max_domain
                            &&& e.ids@.len() == cnt
                            &&& batch_ok(cfg, e.domain, e.ids@)
                            &&& batch_chained(cfg, e.ids@)
                        }
                },
                Err(e) => match e {
                    RequestError::InvalidCount => cnt == 0,
                    RequestError::InvalidDomainToken(t) => {
                        &&& cnt >= 1
                        &&& request.domains is Some
                        &&& ({
                            let toks = split_tokens(string_bytes(request.domains->0));
                            exists|k: int|
                                0 <= k < toks.len() && !is_u64_token(#[trigger] toks[k]) && t@
                                    == toks[k] && (forall|j: int|
                                    0 <= j < k ==> is_u64_token(#[trigger] toks[j]))
                        })
                    },
                    RequestError::IncorrectDomain(d) => {
                        &&& cnt >= 1
                        &&& domains_wellformed(request.domains)
                        &&& d > cfg.max_domain
                        &&& exists|k: int|
                            0 <= k < doms.len() && #[trigger] doms[k] == d && (forall|j: int|
                                0 <= j < k ==> #[trigger] doms[j] <= cfg.max_domain)
                    },
                },
            }
        }),
{
    proof {
        lemma_generator_config(generator);
    }
    let count = match request.count {
        Some(c) => c,
        None => 10,
    };
    if count == 0 {
        return Err(RequestError::InvalidCount);
    }
    let domains: Vec<u64> = match &request.domains {
        Some(ds) => {
            match parse_domains(ds.as_str()) {
                Ok(v) => v,
                Err(t) => {
                    return Err(RequestError::InvalidDomainToken(t));
                },
            }
        },
        None => {
            let max_domain = generator.get_max_domain();
            let mut v: Vec<u64> = Vec::new();
            let mut i: u64 = 0;
            while i <= max_domain
                invariant
                    max_domain == generator.spec_config().max_domain,
                    supports_generation(generator.spec_config()),
                    i <= max_domain + 1,
                    v@ == Seq::new(i as nat, |k: int| k as u64),
                decreases max_domain + 1 - i,
            {
                v.push(i);
                proof {
                    assert(v@ =~= Seq::new((i + 1) as nat, |k: int| k as u64));
                }
                i = i + 1;
            }
            v
        },
    };
    let ghost doms = requested_domains(generator.spec_config().max_domain, request.domains);
    proof {
        assert(domains@ == doms);
    }
    let mut ids_by_domain: Vec<IdsForDomain> = Vec::new();
    let mut idx: usize = 0;
    while idx < domains.len()
        invariant
            generator.wf(),
            supports_generation(generator.spec_config()),
            count >= 1,
            count == effective_count(request.count),
            domains_wellformed(request.domains),
            doms == requested_domains(generator.spec_config().max_domain, request.domains),
            domains@ == doms,
            idx <= doms.len(),
            ids_by_domain@.len() == idx,
            forall|j: int| 0 <= j < idx ==> #[trigger] doms[j] <= generator.spec_config().max_domain,
            forall|k: int|
                0 <= k < idx ==> {
                    let e = #[trigger] ids_by_domain@[k];
                    &&& e.domain == doms[k]
                    &&& e.domain <= generator.spec_config().max_domain
                    &&& e.ids@.len() == count
                    &&& batch_ok(generator.spec_config(), e.domain, e.ids@)
                    &&& batch_chained(generator.spec_config(), e.ids@)
                },
        decreases domains@.len() - idx,
    {
        let domain = domains[idx];
        if domain > generator.get_max_domain() {
            proof {
                assert(doms[idx as int] == domain);
            }
            return Err(RequestError::IncorrectDomain(domain));
        }
        let ids = match generator.generate_ids(count as usize, domain as usize) {
            Ok(ids) => ids,
            Err(_) => {
                return Err(RequestError::IncorrectDomain(domain));
            },
        };
        ids_by_domain.push(IdsForDomain { domain, ids });
        proof {
            assert((domain as usize) as u64 == domain);
            assert(ids_by_domain@[idx as int].domain == doms[idx as int]);
            assert(batch_ok(
                generator.spec_config(),
                ids_by_domain@[idx as int].domain,
                ids_by_domain@[idx as int].ids@,
            ));
        }
        idx = idx + 1;
    }
    Ok(GenerateIdsResponse { ids_by_domain })
}

/// Serves one parse request: unpacks the word under the generator's layout
/// and renders its timestamp as an absolute RFC 3339 instant. Never fails:
/// every 64-bit word is a valid packed value.
pub fn parse_id(generator: &IdGenerator, request: &ParseIdRequest) -> (r: ParseIdResponse)
    requires
        generator.wf(),
        generator.spec_config().epoch_start_second + generator.spec_config().max_timestamp
            <= clock::MAX_RENDERABLE_SECOND,
    ensures
        ({
            let p = generator.spec_config().spec_decode(request.id);
            &&& r.domain == p.domain
            &&& r.timestamp == p.timestamp
            &&& r.instance_id == p.instance_id
            &&& r.counter == p.counter
            &&& r.decoded_timestamp@ == clock::rfc3339_of(
                (generator.spec_config().epoch_start_second + p.timestamp) as i64,
            )
        }),
{
    let params = generator.decode(request.id);
    proof {
        lemma_generator_config(generator);
        lemma_decode_in_range(generator.spec_config(), request.id);
    }
    let epoch_start = generator.get_epoch_start();
    let decoded_timestamp = clock::render_timestamp(epoch_start, params.timestamp);
    ParseIdResponse {
        timestamp: params.timestamp,
        decoded_timestamp,
        counter: params.counter,
        instance_id: params.instance_id,
        domain: params.domain,
    }
}

} // verus!
