//! Addresses of the dataset service that the backend forwards dataset requests to.
use vstd::prelude::*;
use crate::text::concat;

verus! {

/// A byte that percent-encoding leaves as it is: ASCII letters and digits, `-`, `.`, `_`, `~`.
pub open spec fn url_safe(b: u8) -> bool {
    ||| (48 <= b && b <= 57)
    ||| (65 <= b && b <= 90)
    ||| (97 <= b && b <= 122)
    ||| b == 45
    ||| b == 46
    ||| b == 95
    ||| b == 126
}

/// Upper-case hexadecimal digit of `d < 16`.
pub open spec fn hex_digit(d: u8) -> char {
    if d < 10 {
        ((48 + d) as u8) as char
    } else {
        ((55 + d) as u8) as char
    }
}

/// Percent-encoding of `bs`: safe bytes stay, every other byte becomes `%` and two
/// upper-case hexadecimal digits.
pub open spec fn percent_encoded(bs: Seq<u8>) -> Seq<char>
    decreases bs.len(),
{
    if bs.len() == 0 {
        Seq::empty()
    } else {
        let b = bs.last();
        percent_encoded(bs.drop_last()) + if url_safe(b) {
            seq![b as char]
        } else {
            seq!['%', hex_digit(b / 16), hex_digit(b % 16)]
        }
    }
}

/// `urlencoding::encode`, which percent-encodes the UTF-8 bytes of `s`; its source does
/// exactly what `percent_encoded` states.
#[verifier::external_body]
fn url_encode(s: &str) -> (r: String)
    ensures
        r@ == percent_encoded(vstd::utf8::encode_utf8(s@)),
{
    urlencoding::encode(s).into_owned()
}

/// The parameters `ps` joined by `&`.
pub open spec fn join_params(ps: Seq<Seq<char>>) -> Seq<char>
    decreases ps.len(),
{
    if ps.len() == 0 {
        Seq::empty()
    } else if ps.len() == 1 {
        ps[0]
    } else {
        join_params(ps.drop_last()) + "&"@ + ps.last()
    }
}

/// The query part of an address with parameters `ps`: nothing when there are none.
pub open spec fn query_part(ps: Seq<Seq<char>>) -> Seq<char> {
    if ps.len() == 0 {
        Seq::empty()
    } else {
        "?"@ + join_params(ps)
    }
}

/// The base address of the dataset service: `http://host:port`, with host `localhost` and
/// port `55322` unless configured.
pub fn python_service_url(host: Option<String>, port: Option<String>) -> (r: String)
    ensures
        r@ == "http://"@ + (match host {
            Some(h) => h@,
            None => "localhost"@,
        }) + ":"@ + (match port {
            Some(p) => p@,
            None => "55322"@,
        }),
{
    let h = match host {
        Some(h) => h,
        None => "localhost".to_string(),
    };
    let p = match port {
        Some(p) => p,
        None => "55322".to_string(),
    };
    let a = concat("http://", h.as_str());
    let b = concat(a.as_str(), ":");
    concat(b.as_str(), p.as_str())
}

/// Appends the query part of `params` to `url`.
fn with_query(url: String, params: &Vec<String>) -> (r: String)
    ensures
        r@ == url@ + query_part(params@.map_values(|p: String| p@)),
{
    let ghost ps = params@.map_values(|p: String| p@);
    if params.len() == 0 {
        return url;
    }
    let mut q = concat("?", params[0].as_str());
    let mut i: usize = 1;
    proof {
        assert(ps.take(1).drop_last() =~= Seq::<Seq<char>>::empty());
        assert(join_params(ps.take(1)) == ps.take(1)[0]);
    }
    while i < params.len()
        invariant
            ps == params@.map_values(|p: String| p@),
            1 <= i <= params.len(),
            q@ == "?"@ + join_params(ps.take(i as int)),
        decreases params.len() - i,
    {
        let a = concat(q.as_str(), "&");
        q = concat(a.as_str(), params[i].as_str());
        proof {
            assert(ps.take(i + 1).drop_last() =~= ps.take(i as int));
            assert(ps.take(i + 1).last() == params@[i as int]@);
        }
        i = i + 1;
    }
    proof {
        assert(ps.take(params.len() as int) =~= ps);
    }
    concat(url.as_str(), q.as_str())
}

/// `key=` followed by the percent-encoded `value`.
fn encoded_param(key: &str, value: &str) -> (r: String)
    ensures
        r@ == key@ + "="@ + percent_encoded(vstd::utf8::encode_utf8(value@)),
{
    let a = concat(key, "=");
    let e = url_encode(value);
    concat(a.as_str(), e.as_str())
}

/// `key=` followed by `value` as it is.
fn raw_param(key: &str, value: &str) -> (r: String)
    ensures
        r@ == key@ + "="@ + value@,
{
    let a = concat(key, "=");
    concat(a.as_str(), value)
}

pub open spec fn opt_param(key: Seq<char>, value: Option<String>, encode: bool) -> Seq<Seq<char>> {
    match value {
        Some(v) => seq![key + "="@ + if encode {
            percent_encoded(vstd::utf8::encode_utf8(v@))
        } else {
            v@
        }],
        None => Seq::empty(),
    }
}

/// The address of the catalogue of curated datasets.
pub fn curated_url(base: &str) -> (r: String)
    ensures
        r@ == base@ + "/datasets/curated"@,
{
    concat(base, "/datasets/curated")
}

/// The address of a dataset search: the query text is percent-encoded, the limit is passed
/// as it is.
pub fn search_url(base: &str, query: Option<String>, limit: Option<String>) -> (r: String)
    ensures
        r@ == base@ + "/datasets/search"@ + query_part(
            opt_param("query"@, query, true) + opt_param("limit"@, limit, false),
        ),
{
    let url = concat(base, "/datasets/search");
    let mut params: Vec<String> = Vec::new();
    if let Some(q) = &query {
        params.push(encoded_param("query", q.as_str()));
    }
    if let Some(l) = &limit {
        params.push(raw_param("limit", l.as_str()));
    }
    proof {
        assert(params@.map_values(|p: String| p@) =~= opt_param("query"@, query, true) + opt_param(
            "limit"@,
            limit,
            false,
        ));
    }
    with_query(url, &params)
}

/// The address of the preview of a dataset: configuration and split are percent-encoded,
/// the sample size is passed as it is.
pub fn preview_url(
    base: &str,
    dataset_id: &str,
    config: Option<String>,
    split: Option<String>,
    sample_size: Option<String>,
) -> (r: String)
    ensures
        r@ == base@ + "/datasets/"@ + dataset_id@ + "/preview"@ + query_part(
            opt_param("config"@, config, true) + opt_param("split"@, split, true) + opt_param(
                "sample_size"@,
                sample_size,
                false,
            ),
        ),
{
    let a = concat(base, "/datasets/");
    let b = concat(a.as_str(), dataset_id);
    let url = concat(b.as_str(), "/preview");
    let mut params: Vec<String> = Vec::new();
    if let Some(c) = &config {
        params.push(encoded_param("config", c.as_str()));
    }
    if let Some(s) = &split {
        params.push(encoded_param("split", s.as_str()));
    }
    if let Some(n) = &sample_size {
        params.push(raw_param("sample_size", n.as_str()));
    }
    proof {
        assert(params@.map_values(|p: String| p@) =~= opt_param("config"@, config, true) + opt_param(
            "split"@,
            split,
            true,
        ) + opt_param("sample_size"@, sample_size, false));
    }
    with_query(url, &params)
}

/// The address of an action (`download`, `configs`, `transform`) on a dataset.
pub fn dataset_url(base: &str, dataset_id: &str, action: &str) -> (r: String)
    ensures
        r@ == base@ + "/datasets/"@ + dataset_id@ + "/"@ + action@,
{
    let a = concat(base, "/datasets/");
    let b = concat(a.as_str(), dataset_id);
    let c = concat(b.as_str(), "/");
    concat(c.as_str(), action)
}

} // verus!
