use vstd::prelude::*;

verus! {

/// The part of `s` after its last `c`; all of `s` when there is none.
pub open spec fn after_last(s: Seq<char>, c: char) -> Seq<char>
    decreases s.len(),
{
    if s.len() == 0 {
        s
    } else if s.last() == c {
        Seq::empty()
    } else {
        after_last(s.drop_last(), c).push(s.last())
    }
}

/// Equality of two texts.
fn same_text(a: &str, b: &str) -> (r: bool)
    ensures
        r == (a@ == b@),
{
    String::from_str(a) == String::from_str(b)
}

/// The part of `s` after its last underscore.
fn after_last_underscore(s: &str) -> (r: String)
    ensures
        r@ == after_last(s@, '_'),
{
    let n = s.unicode_len();
    let mut i: usize = n;
    assert(s@.take(n as int) =~= s@);
    assert(s@.subrange(n as int, n as int) =~= Seq::<char>::empty());
    assert(after_last(s@, '_') =~= after_last(s@.take(n as int), '_') + s@.subrange(n as int, n as int));
    while i > 0 && s.get_char(i - 1) != '_'
        invariant
            i <= n == s@.len(),
            after_last(s@, '_') == after_last(s@.take(i as int), '_') + s@.subrange(i as int, n as int),
        decreases i,
    {
        let ghost t = s@.take(i as int);
        assert(t.drop_last() =~= s@.take(i - 1));
        assert(t.last() == s@[i - 1]);
        assert(after_last(s@.take(i as int), '_') + s@.subrange(i as int, n as int) =~= after_last(
            s@.take(i - 1),
            '_',
        ) + s@.subrange(i - 1, n as int));
        i = i - 1;
    }
    proof {
        if i == 0 {
            assert(s@.take(0) =~= Seq::<char>::empty());
        } else {
            assert(s@.take(i as int).last() == '_');
        }
        assert(after_last(s@, '_') =~= s@.subrange(i as int, n as int));
    }
    String::from_str(s.substring_char(i, n))
}

/// Provider of an AI model id: `deepseek` and `qwen` name themselves, any
/// other id names its provider after its last underscore.
pub open spec fn provider_spec(id: Seq<char>) -> Seq<char> {
    if id == "deepseek"@ || id == "qwen"@ {
        id
    } else {
        after_last(id, '_')
    }
}

/// Provider inferred from an AI model id.
pub fn model_provider(id: &str) -> (r: String)
    ensures
        r@ == provider_spec(id@),
{
    if same_text(id, "deepseek") || same_text(id, "qwen") {
        String::from_str(id)
    } else {
        after_last_underscore(id)
    }
}

/// Display name of a provider's model when none is recorded.
pub open spec fn model_name_spec(provider: Seq<char>) -> Seq<char> {
    if provider == "deepseek"@ {
        "Deepseek AI"@
    } else if provider == "qwen"@ {
        "Qwen AI"@
    } else {
        provider + " AI"@
    }
}

/// Display name given to a new model of `provider`.
pub fn default_model_name(provider: &str) -> (r: String)
    ensures
        r@ == model_name_spec(provider@),
{
    if same_text(provider, "deepseek") {
        String::from_str("Deepseek AI")
    } else if same_text(provider, "qwen") {
        String::from_str("Qwen AI")
    } else {
        let mut s = String::from_str(provider);
        s.append(" AI");
        s
    }
}

/// Id of a new model configuration: an id that is just a provider becomes
/// user-specific (`<user>_<provider>`); any other id is kept.
pub fn new_model_id(user_id: &str, id: &str, provider: &str) -> (r: String)
    ensures
        r@ == (if id@ == provider@ {
            user_id@ + "_"@ + provider@
        } else {
            id@
        }),
{
    if same_text(id, provider) {
        let mut s = String::from_str(user_id);
        s.append("_");
        s.append(provider);
        s
    } else {
        String::from_str(id)
    }
}

/// Name and kind (`cex` or `dex`) of a new exchange configuration.
pub open spec fn exchange_defaults_spec(id: Seq<char>) -> (Seq<char>, Seq<char>) {
    if id == "binance"@ {
        ("Binance Futures"@, "cex"@)
    } else if id == "hyperliquid"@ {
        ("Hyperliquid"@, "dex"@)
    } else if id == "aster"@ {
        ("Aster DEX"@, "dex"@)
    } else {
        (id + " Exchange"@, "cex"@)
    }
}

/// Name and kind given to a new exchange configuration with id `id`.
pub fn exchange_defaults(id: &str) -> (r: (String, String))
    ensures
        r.0@ == exchange_defaults_spec(id@).0,
        r.1@ == exchange_defaults_spec(id@).1,
{
    if same_text(id, "binance") {
        (String::from_str("Binance Futures"), String::from_str("cex"))
    } else if same_text(id, "hyperliquid") {
        (String::from_str("Hyperliquid"), String::from_str("dex"))
    } else if same_text(id, "aster") {
        (String::from_str("Aster DEX"), String::from_str("dex"))
    } else {
        let mut name = String::from_str(id);
        name.append(" Exchange");
        (name, String::from_str("cex"))
    }
}

} // verus!
