//! European identities: residential address blocks, the per-host "sticky" identity
//! with its expiry, and the DNS-over-HTTPS queries that carry a European subnet.
use vstd::prelude::*;
use vstd::hash_map::StringHashMap;
use crate::text::{
    chars_of, string_from_chars, push_str, push_decimal, decimal, all_digits, digits_value,
    digits_value_bounded, split_on, split_char,
};

verus! {

// ---------------------------------------------------------------------------
// Chance and time
// ---------------------------------------------------------------------------

/// Calls `rand::thread_rng().gen_range(lo..hi)`: a number in `lo..hi`, which must not
/// be empty (the call panics on an empty range). Which number comes out is left to
/// chance and is not stated.
#[verifier::external_body]
pub(crate) fn random_range(lo: u64, hi: u64) -> (r: u64)
    requires
        lo < hi,
    ensures
        lo <= r < hi,
{
    rand::Rng::gen_range(&mut rand::thread_rng(), lo..hi)
}

/// Calls `std::time::SystemTime::now()` and reads the whole seconds since the Unix
/// epoch (0 for a clock before it). The value depends on the clock and is not stated.
#[verifier::external_body]
pub(crate) fn now_secs() -> (r: u64) {
    match std::time::SystemTime::now().duration_since(std::time::UNIX_EPOCH) {
        Ok(d) => d.as_secs(),
        Err(_) => 0,
    }
}

// ---------------------------------------------------------------------------
// The residential blocks
// ---------------------------------------------------------------------------

/// A European residential ISP block: the first two octets, its time zone, country,
/// Accept-Language and ISP.
#[derive(Debug, Clone, Copy)]
pub struct EuBlock {
    pub prefix: &'static str,
    pub tz: &'static str,
    pub country: &'static str,
    pub lang: &'static str,
    pub isp: &'static str,
}

pub open spec fn block_view(b: EuBlock) -> (Seq<char>, Seq<char>, Seq<char>, Seq<char>, Seq<char>) {
    (b.prefix@, b.tz@, b.country@, b.lang@, b.isp@)
}

/// The blocks, as (prefix, time zone, country, language, ISP).
pub open spec fn eu_block_table() -> Seq<(Seq<char>, Seq<char>, Seq<char>, Seq<char>, Seq<char>)> {
    seq![
        ("85.214"@, "Europe/Berlin"@, "DE"@, "de-DE,de;q=0.9,en;q=0.8"@, "Strato"@),
        ("88.130"@, "Europe/Berlin"@, "DE"@, "de-DE,de;q=0.9,en;q=0.8"@, "Deutsche Telekom"@),
        ("91.66"@, "Europe/Berlin"@, "DE"@, "de-DE,de;q=0.9,en;q=0.8"@, "Vodafone DE"@),
        ("79.193"@, "Europe/Berlin"@, "DE"@, "de-DE,de;q=0.9,en;q=0.8"@, "1&1"@),
        ("92.184"@, "Europe/Paris"@, "FR"@, "fr-FR,fr;q=0.9,en;q=0.8"@, "Orange"@),
        ("82.127"@, "Europe/Paris"@, "FR"@, "fr-FR,fr;q=0.9,en;q=0.8"@, "SFR"@),
        ("78.112"@, "Europe/Paris"@, "FR"@, "fr-FR,fr;q=0.9,en;q=0.8"@, "Free"@),
        ("81.130"@, "Europe/London"@, "GB"@, "en-GB,en;q=0.9"@, "BT"@),
        ("213.205"@, "Europe/London"@, "GB"@, "en-GB,en;q=0.9"@, "O2"@),
        ("86.147"@, "Europe/London"@, "GB"@, "en-GB,en;q=0.9"@, "Sky Broadband"@),
        ("87.213"@, "Europe/Rome"@, "IT"@, "it-IT,it;q=0.9,en;q=0.8"@, "Telecom Italia"@),
        ("151.44"@, "Europe/Rome"@, "IT"@, "it-IT,it;q=0.9,en;q=0.8"@, "Wind Tre"@),
        ("80.28"@, "Europe/Madrid"@, "ES"@, "es-ES,es;q=0.9,en;q=0.8"@, "Telefonica"@),
        ("83.44"@, "Europe/Madrid"@, "ES"@, "es-ES,es;q=0.9,en;q=0.8"@, "Movistar"@),
        ("82.161"@, "Europe/Amsterdam"@, "NL"@, "nl-NL,nl;q=0.9,en;q=0.8"@, "KPN"@),
        ("77.167"@, "Europe/Amsterdam"@, "NL"@, "nl-NL,nl;q=0.9,en;q=0.8"@, "Ziggo"@),
        ("83.8"@, "Europe/Warsaw"@, "PL"@, "pl-PL,pl;q=0.9,en;q=0.8"@, "Orange Polska"@),
        ("79.185"@, "Europe/Warsaw"@, "PL"@, "pl-PL,pl;q=0.9,en;q=0.8"@, "Neostrada"@),
        ("85.243"@, "Europe/Lisbon"@, "PT"@, "pt-PT,pt;q=0.9,en;q=0.8"@, "MEO"@),
        ("90.224"@, "Europe/Stockholm"@, "SE"@, "sv-SE,sv;q=0.9,en;q=0.8"@, "Telia"@),
        ("81.240"@, "Europe/Brussels"@, "BE"@, "nl-BE,nl;q=0.9,fr;q=0.8,en;q=0.7"@, "Proximus"@),
        ("91.115"@, "Europe/Berlin"@, "DE"@, "de-DE,de;q=0.9,en;q=0.8"@, "A1 Telekom"@),
    ]
}

/// Whether `c` is a country code: two capital letters.
pub open spec fn is_country_code(c: Seq<char>) -> bool {
    c.len() == 2 && forall|i: int| 0 <= i < 2 ==> 'A' <= #[trigger] c[i] <= 'Z'
}

proof fn lemma_countries_are_codes()
    ensures
        forall|c: Seq<char>| #[trigger] block_countries().contains(c) ==> is_country_code(c),
{
    reveal_strlit("DE");
    reveal_strlit("FR");
    reveal_strlit("GB");
    reveal_strlit("IT");
    reveal_strlit("ES");
    reveal_strlit("NL");
    reveal_strlit("PL");
    reveal_strlit("PT");
    reveal_strlit("SE");
    reveal_strlit("BE");
}

/// The countries of the blocks.
pub open spec fn block_countries() -> Set<Seq<char>> {
    set!["DE"@, "FR"@, "GB"@, "IT"@, "ES"@, "NL"@, "PL"@, "PT"@, "SE"@, "BE"@]
}

proof fn lemma_block_prefixes_distinct()
    ensures
        forall|i: int, j: int| 0 <= i < j < 22 ==> #[trigger] eu_block_table()[i].0 != #[trigger] eu_block_table()[j].0,
{
    reveal_strlit("151.44");
    reveal_strlit("213.205");
    reveal_strlit("77.167");
    reveal_strlit("78.112");
    reveal_strlit("79.185");
    reveal_strlit("79.193");
    reveal_strlit("80.28");
    reveal_strlit("81.130");
    reveal_strlit("81.240");
    reveal_strlit("82.127");
    reveal_strlit("82.161");
    reveal_strlit("83.44");
    reveal_strlit("83.8");
    reveal_strlit("85.214");
    reveal_strlit("85.243");
    reveal_strlit("86.147");
    reveal_strlit("87.213");
    reveal_strlit("88.130");
    reveal_strlit("90.224");
    reveal_strlit("91.115");
    reveal_strlit("91.66");
    reveal_strlit("92.184");
    let t = eu_block_table();
    assert(t[0].0 == "85.214"@);
    assert(t[1].0 == "88.130"@);
    assert(t[2].0 == "91.66"@);
    assert(t[3].0 == "79.193"@);
    assert(t[4].0 == "92.184"@);
    assert(t[5].0 == "82.127"@);
    assert(t[6].0 == "78.112"@);
    assert(t[7].0 == "81.130"@);
    assert(t[8].0 == "213.205"@);
    assert(t[9].0 == "86.147"@);
    assert(t[10].0 == "87.213"@);
    assert(t[11].0 == "151.44"@);
    assert(t[12].0 == "80.28"@);
    assert(t[13].0 == "83.44"@);
    assert(t[14].0 == "82.161"@);
    assert(t[15].0 == "77.167"@);
    assert(t[16].0 == "83.8"@);
    assert(t[17].0 == "79.185"@);
    assert(t[18].0 == "85.243"@);
    assert(t[19].0 == "90.224"@);
    assert(t[20].0 == "81.240"@);
    assert(t[21].0 == "91.115"@);
    assert forall|i: int, j: int| 0 <= i < j < 22 implies #[trigger] t[i].0 != #[trigger] t[j].0 by {
        if i == 0 {
            if j == 1 {
                assert(t[0].0[1] != t[1].0[1]);
            } else if j == 2 {
                assert(t[0].0.len() != t[2].0.len());
            } else if j == 3 {
                assert(t[0].0[0] != t[3].0[0]);
            } else if j == 4 {
                assert(t[0].0[0] != t[4].0[0]);
            } else if j == 5 {
                assert(t[0].0[1] != t[5].0[1]);
            } else if j == 6 {
                assert(t[0].0[0] != t[6].0[0]);
            } else if j == 7 {
                assert(t[0].0[1] != t[7].0[1]);
            } else if j == 8 {
                assert(t[0].0.len() != t[8].0.len());
            } else if j == 9 {
                assert(t[0].0[1] != t[9].0[1]);
            } else if j == 10 {
                assert(t[0].0[1] != t[10].0[1]);
            } else if j == 11 {
                assert(t[0].0[0] != t[11].0[0]);
            } else if j == 12 {
                assert(t[0].0.len() != t[12].0.len());
            } else if j == 13 {
                assert(t[0].0.len() != t[13].0.len());
            } else if j == 14 {
                assert(t[0].0[1] != t[14].0[1]);
            } else if j == 15 {
                assert(t[0].0[0] != t[15].0[0]);
            } else if j == 16 {
                assert(t[0].0.len() != t[16].0.len());
            } else if j == 17 {
                assert(t[0].0[0] != t[17].0[0]);
            } else if j == 18 {
                assert(t[0].0[4] != t[18].0[4]);
            } else if j == 19 {
                assert(t[0].0[0] != t[19].0[0]);
            } else if j == 20 {
                assert(t[0].0[1] != t[20].0[1]);
            } else if j == 21 {
                assert(t[0].0[0] != t[21].0[0]);
            }
        } else if i == 1 {
            if j == 2 {
                assert(t[1].0.len() != t[2].0.len());
            } else if j == 3 {
                assert(t[1].0[0] != t[3].0[0]);
            } else if j == 4 {
                assert(t[1].0[0] != t[4].0[0]);
            } else if j == 5 {
                assert(t[1].0[1] != t[5].0[1]);
            } else if j == 6 {
                assert(t[1].0[0] != t[6].0[0]);
            } else if j == 7 {
                assert(t[1].0[1] != t[7].0[1]);
            } else if j == 8 {
                assert(t[1].0.len() != t[8].0.len());
            } else if j == 9 {
                assert(t[1].0[1] != t[9].0[1]);
            } else if j == 10 {
                assert(t[1].0[1] != t[10].0[1]);
            } else if j == 11 {
                assert(t[1].0[0] != t[11].0[0]);
            } else if j == 12 {
                assert(t[1].0.len() != t[12].0.len());
            } else if j == 13 {
                assert(t[1].0.len() != t[13].0.len());
            } else if j == 14 {
                assert(t[1].0[1] != t[14].0[1]);
            } else if j == 15 {
                assert(t[1].0[0] != t[15].0[0]);
            } else if j == 16 {
                assert(t[1].0.len() != t[16].0.len());
            } else if j == 17 {
                assert(t[1].0[0] != t[17].0[0]);
            } else if j == 18 {
                assert(t[1].0[1] != t[18].0[1]);
            } else if j == 19 {
                assert(t[1].0[0] != t[19].0[0]);
            } else if j == 20 {
                assert(t[1].0[1] != t[20].0[1]);
            } else if j == 21 {
                assert(t[1].0[0] != t[21].0[0]);
            }
        } else if i == 2 {
            if j == 3 {
                assert(t[2].0.len() != t[3].0.len());
            } else if j == 4 {
                assert(t[2].0.len() != t[4].0.len());
            } else if j == 5 {
                assert(t[2].0.len() != t[5].0.len());
            } else if j == 6 {
                assert(t[2].0.len() != t[6].0.len());
            } else if j == 7 {
                assert(t[2].0.len() != t[7].0.len());
            } else if j == 8 {
                assert(t[2].0.len() != t[8].0.len());
            } else if j == 9 {
                assert(t[2].0.len() != t[9].0.len());
            } else if j == 10 {
                assert(t[2].0.len() != t[10].0.len());
            } else if j == 11 {
                assert(t[2].0.len() != t[11].0.len());
            } else if j == 12 {
                assert(t[2].0[0] != t[12].0[0]);
            } else if j == 13 {
                assert(t[2].0[0] != t[13].0[0]);
            } else if j == 14 {
                assert(t[2].0.len() != t[14].0.len());
            } else if j == 15 {
                assert(t[2].0.len() != t[15].0.len());
            } else if j == 16 {
                assert(t[2].0.len() != t[16].0.len());
            } else if j == 17 {
                assert(t[2].0.len() != t[17].0.len());
            } else if j == 18 {
                assert(t[2].0.len() != t[18].0.len());
            } else if j == 19 {
                assert(t[2].0.len() != t[19].0.len());
            } else if j == 20 {
                assert(t[2].0.len() != t[20].0.len());
            } else if j == 21 {
                assert(t[2].0.len() != t[21].0.len());
            }
        } else if i == 3 {
            if j == 4 {
                assert(t[3].0[0] != t[4].0[0]);
            } else if j == 5 {
                assert(t[3].0[0] != t[5].0[0]);
            } else if j == 6 {
                assert(t[3].0[1] != t[6].0[1]);
            } else if j == 7 {
                assert(t[3].0[0] != t[7].0[0]);
            } else if j == 8 {
                assert(t[3].0.len() != t[8].0.len());
            } else if j == 9 {
                assert(t[3].0[0] != t[9].0[0]);
            } else if j == 10 {
                assert(t[3].0[0] != t[10].0[0]);
            } else if j == 11 {
                assert(t[3].0[0] != t[11].0[0]);
            } else if j == 12 {
                assert(t[3].0.len() != t[12].0.len());
            } else if j == 13 {
                assert(t[3].0.len() != t[13].0.len());
            } else if j == 14 {
                assert(t[3].0[0] != t[14].0[0]);
            } else if j == 15 {
                assert(t[3].0[1] != t[15].0[1]);
            } else if j == 16 {
                assert(t[3].0.len() != t[16].0.len());
            } else if j == 17 {
                assert(t[3].0[4] != t[17].0[4]);
            } else if j == 18 {
                assert(t[3].0[0] != t[18].0[0]);
            } else if j == 19 {
                assert(t[3].0[0] != t[19].0[0]);
            } else if j == 20 {
                assert(t[3].0[0] != t[20].0[0]);
            } else if j == 21 {
                assert(t[3].0[0] != t[21].0[0]);
            }
        } else if i == 4 {
            if j == 5 {
                assert(t[4].0[0] != t[5].0[0]);
            } else if j == 6 {
                assert(t[4].0[0] != t[6].0[0]);
            } else if j == 7 {
                assert(t[4].0[0] != t[7].0[0]);
            } else if j == 8 {
                assert(t[4].0.len() != t[8].0.len());
            } else if j == 9 {
                assert(t[4].0[0] != t[9].0[0]);
            } else if j == 10 {
                assert(t[4].0[0] != t[10].0[0]);
            } else if j == 11 {
                assert(t[4].0[0] != t[11].0[0]);
            } else if j == 12 {
                assert(t[4].0.len() != t[12].0.len());
            } else if j == 13 {
                assert(t[4].0.len() != t[13].0.len());
            } else if j == 14 {
                assert(t[4].0[0] != t[14].0[0]);
            } else if j == 15 {
                assert(t[4].0[0] != t[15].0[0]);
            } else if j == 16 {
                assert(t[4].0.len() != t[16].0.len());
            } else if j == 17 {
                assert(t[4].0[0] != t[17].0[0]);
            } else if j == 18 {
                assert(t[4].0[0] != t[18].0[0]);
            } else if j == 19 {
                assert(t[4].0[1] != t[19].0[1]);
            } else if j == 20 {
                assert(t[4].0[0] != t[20].0[0]);
            } else if j == 21 {
                assert(t[4].0[1] != t[21].0[1]);
            }
        } else if i == 5 {
            if j == 6 {
                assert(t[5].0[0] != t[6].0[0]);
            } else if j == 7 {
                assert(t[5].0[1] != t[7].0[1]);
            } else if j == 8 {
                assert(t[5].0.len() != t[8].0.len());
            } else if j == 9 {
                assert(t[5].0[1] != t[9].0[1]);
            } else if j == 10 {
                assert(t[5].0[1] != t[10].0[1]);
            } else if j == 11 {
                assert(t[5].0[0] != t[11].0[0]);
            } else if j == 12 {
                assert(t[5].0.len() != t[12].0.len());
            } else if j == 13 {
                assert(t[5].0.len() != t[13].0.len());
            } else if j == 14 {
                assert(t[5].0[4] != t[14].0[4]);
            } else if j == 15 {
                assert(t[5].0[0] != t[15].0[0]);
            } else if j == 16 {
                assert(t[5].0.len() != t[16].0.len());
            } else if j == 17 {
                assert(t[5].0[0] != t[17].0[0]);
            } else if j == 18 {
                assert(t[5].0[1] != t[18].0[1]);
            } else if j == 19 {
                assert(t[5].0[0] != t[19].0[0]);
            } else if j == 20 {
                assert(t[5].0[1] != t[20].0[1]);
            } else if j == 21 {
                assert(t[5].0[0] != t[21].0[0]);
            }
        } else if i == 6 {
            if j == 7 {
                assert(t[6].0[0] != t[7].0[0]);
            } else if j == 8 {
                assert(t[6].0.len() != t[8].0.len());
            } else if j == 9 {
                assert(t[6].0[0] != t[9].0[0]);
            } else if j == 10 {
                assert(t[6].0[0] != t[10].0[0]);
            } else if j == 11 {
                assert(t[6].0[0] != t[11].0[0]);
            } else if j == 12 {
                assert(t[6].0.len() != t[12].0.len());
            } else if j == 13 {
                assert(t[6].0.len() != t[13].0.len());
            } else if j == 14 {
                assert(t[6].0[0] != t[14].0[0]);
            } else if j == 15 {
                assert(t[6].0[1] != t[15].0[1]);
            } else if j == 16 {
                assert(t[6].0.len() != t[16].0.len());
            } else if j == 17 {
                assert(t[6].0[1] != t[17].0[1]);
            } else if j == 18 {
                assert(t[6].0[0] != t[18].0[0]);
            } else if j == 19 {
                assert(t[6].0[0] != t[19].0[0]);
            } else if j == 20 {
                assert(t[6].0[0] != t[20].0[0]);
            } else if j == 21 {
                assert(t[6].0[0] != t[21].0[0]);
            }
        } else if i == 7 {
            if j == 8 {
                assert(t[7].0.len() != t[8].0.len());
            } else if j == 9 {
                assert(t[7].0[1] != t[9].0[1]);
            } else if j == 10 {
                assert(t[7].0[1] != t[10].0[1]);
            } else if j == 11 {
                assert(t[7].0[0] != t[11].0[0]);
            } else if j == 12 {
                assert(t[7].0.len() != t[12].0.len());
            } else if j == 13 {
                assert(t[7].0.len() != t[13].0.len());
            } else if j == 14 {
                assert(t[7].0[1] != t[14].0[1]);
            } else if j == 15 {
                assert(t[7].0[0] != t[15].0[0]);
            } else if j == 16 {
                assert(t[7].0.len() != t[16].0.len());
            } else if j == 17 {
                assert(t[7].0[0] != t[17].0[0]);
            } else if j == 18 {
                assert(t[7].0[1] != t[18].0[1]);
            } else if j == 19 {
                assert(t[7].0[0] != t[19].0[0]);
            } else if j == 20 {
                assert(t[7].0[3] != t[20].0[3]);
            } else if j == 21 {
                assert(t[7].0[0] != t[21].0[0]);
            }
        } else if i == 8 {
            if j == 9 {
                assert(t[8].0.len() != t[9].0.len());
            } else if j == 10 {
                assert(t[8].0.len() != t[10].0.len());
            } else if j == 11 {
                assert(t[8].0.len() != t[11].0.len());
            } else if j == 12 {
                assert(t[8].0.len() != t[12].0.len());
            } else if j == 13 {
                assert(t[8].0.len() != t[13].0.len());
            } else if j == 14 {
                assert(t[8].0.len() != t[14].0.len());
            } else if j == 15 {
                assert(t[8].0.len() != t[15].0.len());
            } else if j == 16 {
                assert(t[8].0.len() != t[16].0.len());
            } else if j == 17 {
                assert(t[8].0.len() != t[17].0.len());
            } else if j == 18 {
                assert(t[8].0.len() != t[18].0.len());
            } else if j == 19 {
                assert(t[8].0.len() != t[19].0.len());
            } else if j == 20 {
                assert(t[8].0.len() != t[20].0.len());
            } else if j == 21 {
                assert(t[8].0.len() != t[21].0.len());
            }
        } else if i == 9 {
            if j == 10 {
                assert(t[9].0[1] != t[10].0[1]);
            } else if j == 11 {
                assert(t[9].0[0] != t[11].0[0]);
            } else if j == 12 {
                assert(t[9].0.len() != t[12].0.len());
            } else if j == 13 {
                assert(t[9].0.len() != t[13].0.len());
            } else if j == 14 {
                assert(t[9].0[1] != t[14].0[1]);
            } else if j == 15 {
                assert(t[9].0[0] != t[15].0[0]);
            } else if j == 16 {
                assert(t[9].0.len() != t[16].0.len());
            } else if j == 17 {
                assert(t[9].0[0] != t[17].0[0]);
            } else if j == 18 {
                assert(t[9].0[1] != t[18].0[1]);
            } else if j == 19 {
                assert(t[9].0[0] != t[19].0[0]);
            } else if j == 20 {
                assert(t[9].0[1] != t[20].0[1]);
            } else if j == 21 {
                assert(t[9].0[0] != t[21].0[0]);
            }
        } else if i == 10 {
            if j == 11 {
                assert(t[10].0[0] != t[11].0[0]);
            } else if j == 12 {
                assert(t[10].0.len() != t[12].0.len());
            } else if j == 13 {
                assert(t[10].0.len() != t[13].0.len());
            } else if j == 14 {
                assert(t[10].0[1] != t[14].0[1]);
            } else if j == 15 {
                assert(t[10].0[0] != t[15].0[0]);
            } else if j == 16 {
                assert(t[10].0.len() != t[16].0.len());
            } else if j == 17 {
                assert(t[10].0[0] != t[17].0[0]);
            } else if j == 18 {
                assert(t[10].0[1] != t[18].0[1]);
            } else if j == 19 {
                assert(t[10].0[0] != t[19].0[0]);
            } else if j == 20 {
                assert(t[10].0[1] != t[20].0[1]);
            } else if j == 21 {
                assert(t[10].0[0] != t[21].0[0]);
            }
        } else if i == 11 {
            if j == 12 {
                assert(t[11].0.len() != t[12].0.len());
            } else if j == 13 {
                assert(t[11].0.len() != t[13].0.len());
            } else if j == 14 {
                assert(t[11].0[0] != t[14].0[0]);
            } else if j == 15 {
                assert(t[11].0[0] != t[15].0[0]);
            } else if j == 16 {
                assert(t[11].0.len() != t[16].0.len());
            } else if j == 17 {
                assert(t[11].0[0] != t[17].0[0]);
            } else if j == 18 {
                assert(t[11].0[0] != t[18].0[0]);
            } else if j == 19 {
                assert(t[11].0[0] != t[19].0[0]);
            } else if j == 20 {
                assert(t[11].0[0] != t[20].0[0]);
            } else if j == 21 {
                assert(t[11].0[0] != t[21].0[0]);
            }
        } else if i == 12 {
            if j == 13 {
                assert(t[12].0[1] != t[13].0[1]);
            } else if j == 14 {
                assert(t[12].0.len() != t[14].0.len());
            } else if j == 15 {
                assert(t[12].0.len() != t[15].0.len());
            } else if j == 16 {
                assert(t[12].0.len() != t[16].0.len());
            } else if j == 17 {
                assert(t[12].0.len() != t[17].0.len());
            } else if j == 18 {
                assert(t[12].0.len() != t[18].0.len());
            } else if j == 19 {
                assert(t[12].0.len() != t[19].0.len());
            } else if j == 20 {
                assert(t[12].0.len() != t[20].0.len());
            } else if j == 21 {
                assert(t[12].0.len() != t[21].0.len());
            }
        } else if i == 13 {
            if j == 14 {
                assert(t[13].0.len() != t[14].0.len());
            } else if j == 15 {
                assert(t[13].0.len() != t[15].0.len());
            } else if j == 16 {
                assert(t[13].0.len() != t[16].0.len());
            } else if j == 17 {
                assert(t[13].0.len() != t[17].0.len());
            } else if j == 18 {
                assert(t[13].0.len() != t[18].0.len());
            } else if j == 19 {
                assert(t[13].0.len() != t[19].0.len());
            } else if j == 20 {
                assert(t[13].0.len() != t[20].0.len());
            } else if j == 21 {
                assert(t[13].0.len() != t[21].0.len());
            }
        } else if i == 14 {
            if j == 15 {
                assert(t[14].0[0] != t[15].0[0]);
            } else if j == 16 {
                assert(t[14].0.len() != t[16].0.len());
            } else if j == 17 {
                assert(t[14].0[0] != t[17].0[0]);
            } else if j == 18 {
                assert(t[14].0[1] != t[18].0[1]);
            } else if j == 19 {
                assert(t[14].0[0] != t[19].0[0]);
            } else if j == 20 {
                assert(t[14].0[1] != t[20].0[1]);
            } else if j == 21 {
                assert(t[14].0[0] != t[21].0[0]);
            }
        } else if i == 15 {
            if j == 16 {
                assert(t[15].0.len() != t[16].0.len());
            } else if j == 17 {
                assert(t[15].0[1] != t[17].0[1]);
            } else if j == 18 {
                assert(t[15].0[0] != t[18].0[0]);
            } else if j == 19 {
                assert(t[15].0[0] != t[19].0[0]);
            } else if j == 20 {
                assert(t[15].0[0] != t[20].0[0]);
            } else if j == 21 {
                assert(t[15].0[0] != t[21].0[0]);
            }
        } else if i == 16 {
            if j == 17 {
                assert(t[16].0.len() != t[17].0.len());
            } else if j == 18 {
                assert(t[16].0.len() != t[18].0.len());
            } else if j == 19 {
                assert(t[16].0.len() != t[19].0.len());
            } else if j == 20 {
                assert(t[16].0.len() != t[20].0.len());
            } else if j == 21 {
                assert(t[16].0.len() != t[21].0.len());
            }
        } else if i == 17 {
            if j == 18 {
                assert(t[17].0[0] != t[18].0[0]);
            } else if j == 19 {
                assert(t[17].0[0] != t[19].0[0]);
            } else if j == 20 {
                assert(t[17].0[0] != t[20].0[0]);
            } else if j == 21 {
                assert(t[17].0[0] != t[21].0[0]);
            }
        } else if i == 18 {
            if j == 19 {
                assert(t[18].0[0] != t[19].0[0]);
            } else if j == 20 {
                assert(t[18].0[1] != t[20].0[1]);
            } else if j == 21 {
                assert(t[18].0[0] != t[21].0[0]);
            }
        } else if i == 19 {
            if j == 20 {
                assert(t[19].0[0] != t[20].0[0]);
            } else if j == 21 {
                assert(t[19].0[1] != t[21].0[1]);
            }
        } else if i == 20 {
            if j == 21 {
                assert(t[20].0[0] != t[21].0[0]);
            }
        }
    }
}

proof fn lemma_block_time_zones_european()
    ensures
        forall|i: int| 0 <= i < 22 ==> crate::text::starts_with(#[trigger] eu_block_table()[i].1, "Europe/"@),
{
    reveal_strlit("Europe/Amsterdam");
    reveal_strlit("Europe/Berlin");
    reveal_strlit("Europe/Brussels");
    reveal_strlit("Europe/Lisbon");
    reveal_strlit("Europe/London");
    reveal_strlit("Europe/Madrid");
    reveal_strlit("Europe/Paris");
    reveal_strlit("Europe/Rome");
    reveal_strlit("Europe/Stockholm");
    reveal_strlit("Europe/Warsaw");
    reveal_strlit("Europe/");
    let t = eu_block_table();
    assert(t[0].1 == "Europe/Berlin"@);
    assert(t[1].1 == "Europe/Berlin"@);
    assert(t[2].1 == "Europe/Berlin"@);
    assert(t[3].1 == "Europe/Berlin"@);
    assert(t[4].1 == "Europe/Paris"@);
    assert(t[5].1 == "Europe/Paris"@);
    assert(t[6].1 == "Europe/Paris"@);
    assert(t[7].1 == "Europe/London"@);
    assert(t[8].1 == "Europe/London"@);
    assert(t[9].1 == "Europe/London"@);
    assert(t[10].1 == "Europe/Rome"@);
    assert(t[11].1 == "Europe/Rome"@);
    assert(t[12].1 == "Europe/Madrid"@);
    assert(t[13].1 == "Europe/Madrid"@);
    assert(t[14].1 == "Europe/Amsterdam"@);
    assert(t[15].1 == "Europe/Amsterdam"@);
    assert(t[16].1 == "Europe/Warsaw"@);
    assert(t[17].1 == "Europe/Warsaw"@);
    assert(t[18].1 == "Europe/Lisbon"@);
    assert(t[19].1 == "Europe/Stockholm"@);
    assert(t[20].1 == "Europe/Brussels"@);
    assert(t[21].1 == "Europe/Berlin"@);
    assert("Europe/Amsterdam"@.subrange(0, 7) =~= "Europe/"@);
    assert("Europe/Berlin"@.subrange(0, 7) =~= "Europe/"@);
    assert("Europe/Brussels"@.subrange(0, 7) =~= "Europe/"@);
    assert("Europe/Lisbon"@.subrange(0, 7) =~= "Europe/"@);
    assert("Europe/London"@.subrange(0, 7) =~= "Europe/"@);
    assert("Europe/Madrid"@.subrange(0, 7) =~= "Europe/"@);
    assert("Europe/Paris"@.subrange(0, 7) =~= "Europe/"@);
    assert("Europe/Rome"@.subrange(0, 7) =~= "Europe/"@);
    assert("Europe/Stockholm"@.subrange(0, 7) =~= "Europe/"@);
    assert("Europe/Warsaw"@.subrange(0, 7) =~= "Europe/"@);
}

/// The block table holds 22 blocks across ten countries: no prefix comes twice, every
/// time zone is a European one, and the blocks of one country share its time zone and
/// language.
pub proof fn law_block_table()
    ensures
        eu_block_table().len() == 22,
        forall|i: int| 0 <= i < 22 ==> block_countries().contains(#[trigger] eu_block_table()[i].2),
        forall|c: Seq<char>| #[trigger] block_countries().contains(c) ==> exists|i: int| 0 <= i < 22 && #[trigger] eu_block_table()[i].2 == c,
        block_countries().len() == 10,
        forall|i: int, j: int| 0 <= i < j < 22 ==> #[trigger] eu_block_table()[i].0 != #[trigger] eu_block_table()[j].0,
        forall|i: int| 0 <= i < 22 ==> crate::text::starts_with(#[trigger] eu_block_table()[i].1, "Europe/"@),
        forall|i: int, j: int|
            0 <= i < 22 && 0 <= j < 22 && #[trigger] eu_block_table()[i].2 == #[trigger] eu_block_table()[j].2 ==> eu_block_table()[i].1
                == eu_block_table()[j].1 && eu_block_table()[i].3 == eu_block_table()[j].3,
{
    lemma_block_prefixes_distinct();
    lemma_block_time_zones_european();
    reveal_strlit("1&1");
    reveal_strlit("151.44");
    reveal_strlit("213.205");
    reveal_strlit("77.167");
    reveal_strlit("78.112");
    reveal_strlit("79.185");
    reveal_strlit("79.193");
    reveal_strlit("80.28");
    reveal_strlit("81.130");
    reveal_strlit("81.240");
    reveal_strlit("82.127");
    reveal_strlit("82.161");
    reveal_strlit("83.44");
    reveal_strlit("83.8");
    reveal_strlit("85.214");
    reveal_strlit("85.243");
    reveal_strlit("86.147");
    reveal_strlit("87.213");
    reveal_strlit("88.130");
    reveal_strlit("90.224");
    reveal_strlit("91.115");
    reveal_strlit("91.66");
    reveal_strlit("92.184");
    reveal_strlit("A1 Telekom");
    reveal_strlit("BE");
    reveal_strlit("BT");
    reveal_strlit("DE");
    reveal_strlit("Deutsche Telekom");
    reveal_strlit("ES");
    reveal_strlit("Europe/Amsterdam");
    reveal_strlit("Europe/Berlin");
    reveal_strlit("Europe/Brussels");
    reveal_strlit("Europe/Lisbon");
    reveal_strlit("Europe/London");
    reveal_strlit("Europe/Madrid");
    reveal_strlit("Europe/Paris");
    reveal_strlit("Europe/Rome");
    reveal_strlit("Europe/Stockholm");
    reveal_strlit("Europe/Warsaw");
    reveal_strlit("FR");
    reveal_strlit("Free");
    reveal_strlit("GB");
    reveal_strlit("IT");
    reveal_strlit("KPN");
    reveal_strlit("MEO");
    reveal_strlit("Movistar");
    reveal_strlit("NL");
    reveal_strlit("Neostrada");
    reveal_strlit("O2");
    reveal_strlit("Orange");
    reveal_strlit("Orange Polska");
    reveal_strlit("PL");
    reveal_strlit("PT");
    reveal_strlit("Proximus");
    reveal_strlit("SE");
    reveal_strlit("SFR");
    reveal_strlit("Sky Broadband");
    reveal_strlit("Strato");
    reveal_strlit("Telecom Italia");
    reveal_strlit("Telefonica");
    reveal_strlit("Telia");
    reveal_strlit("Vodafone DE");
    reveal_strlit("Wind Tre");
    reveal_strlit("Ziggo");
    reveal_strlit("de-DE,de;q=0.9,en;q=0.8");
    reveal_strlit("en-GB,en;q=0.9");
    reveal_strlit("es-ES,es;q=0.9,en;q=0.8");
    reveal_strlit("fr-FR,fr;q=0.9,en;q=0.8");
    reveal_strlit("it-IT,it;q=0.9,en;q=0.8");
    reveal_strlit("nl-BE,nl;q=0.9,fr;q=0.8,en;q=0.7");
    reveal_strlit("nl-NL,nl;q=0.9,en;q=0.8");
    reveal_strlit("pl-PL,pl;q=0.9,en;q=0.8");
    reveal_strlit("pt-PT,pt;q=0.9,en;q=0.8");
    reveal_strlit("sv-SE,sv;q=0.9,en;q=0.8");
    reveal_strlit("Europe/");
    let t = eu_block_table();
    assert(t.len() == 22);
    assert forall|c: Seq<char>| #[trigger] block_countries().contains(c) implies exists|i: int|
        0 <= i < 22 && #[trigger] t[i].2 == c by {
        if c == "DE"@ {
            assert(t[0].2 == c);
        }
        if c == "FR"@ {
            assert(t[4].2 == c);
        }
        if c == "GB"@ {
            assert(t[7].2 == c);
        }
        if c == "IT"@ {
            assert(t[10].2 == c);
        }
        if c == "ES"@ {
            assert(t[12].2 == c);
        }
        if c == "NL"@ {
            assert(t[14].2 == c);
        }
        if c == "PL"@ {
            assert(t[16].2 == c);
        }
        if c == "PT"@ {
            assert(t[18].2 == c);
        }
        if c == "SE"@ {
            assert(t[19].2 == c);
        }
        if c == "BE"@ {
            assert(t[20].2 == c);
        }
    }
    let s0 = Set::<Seq<char>>::empty();
    let s1 = s0.insert("DE"@);
    assert(!s0.contains("DE"@));
    assert(s1.len() == 1);
    let s2 = s1.insert("FR"@);
    assert("FR"@[0] != "DE"@[0]);
    assert(!s1.contains("FR"@));
    assert(s2.len() == 2);
    let s3 = s2.insert("GB"@);
    assert("GB"@[0] != "DE"@[0] && "GB"@[0] != "FR"@[0]);
    assert(!s2.contains("GB"@));
    assert(s3.len() == 3);
    let s4 = s3.insert("IT"@);
    assert("IT"@[0] != "DE"@[0] && "IT"@[0] != "FR"@[0] && "IT"@[0] != "GB"@[0]);
    assert(!s3.contains("IT"@));
    assert(s4.len() == 4);
    let s5 = s4.insert("ES"@);
    assert("ES"@[0] != "DE"@[0] && "ES"@[0] != "FR"@[0] && "ES"@[0] != "GB"@[0] && "ES"@[0] != "IT"@[0]);
    assert(!s4.contains("ES"@));
    assert(s5.len() == 5);
    let s6 = s5.insert("NL"@);
    assert("NL"@[0] != "DE"@[0] && "NL"@[0] != "FR"@[0] && "NL"@[0] != "GB"@[0] && "NL"@[0] != "IT"@[0] && "NL"@[0] != "ES"@[0]);
    assert(!s5.contains("NL"@));
    assert(s6.len() == 6);
    let s7 = s6.insert("PL"@);
    assert("PL"@[0] != "DE"@[0] && "PL"@[0] != "FR"@[0] && "PL"@[0] != "GB"@[0] && "PL"@[0] != "IT"@[0] && "PL"@[0] != "ES"@[0] && "PL"@[0] != "NL"@[0]);
    assert(!s6.contains("PL"@));
    assert(s7.len() == 7);
    let s8 = s7.insert("PT"@);
    assert("PT"@[0] != "DE"@[0] && "PT"@[0] != "FR"@[0] && "PT"@[0] != "GB"@[0] && "PT"@[0] != "IT"@[0] && "PT"@[0] != "ES"@[0] && "PT"@[0] != "NL"@[0] && "PT"@[1] != "PL"@[1]);
    assert(!s7.contains("PT"@));
    assert(s8.len() == 8);
    let s9 = s8.insert("SE"@);
    assert("SE"@[0] != "DE"@[0] && "SE"@[0] != "FR"@[0] && "SE"@[0] != "GB"@[0] && "SE"@[0] != "IT"@[0] && "SE"@[0] != "ES"@[0] && "SE"@[0] != "NL"@[0] && "SE"@[0] != "PL"@[0] && "SE"@[0] != "PT"@[0]);
    assert(!s8.contains("SE"@));
    assert(s9.len() == 9);
    let s10 = s9.insert("BE"@);
    assert("BE"@[0] != "DE"@[0] && "BE"@[0] != "FR"@[0] && "BE"@[0] != "GB"@[0] && "BE"@[0] != "IT"@[0] && "BE"@[0] != "ES"@[0] && "BE"@[0] != "NL"@[0] && "BE"@[0] != "PL"@[0] && "BE"@[0] != "PT"@[0] && "BE"@[0] != "SE"@[0]);
    assert(!s9.contains("BE"@));
    assert(s10.len() == 10);
    assert(s10 == block_countries());

}

/// The European residential blocks used for client-subnet hints and address headers.
pub fn european_blocks() -> (r: Vec<EuBlock>)
    ensures
        r@.map_values(|b: EuBlock| block_view(b)) == eu_block_table(),
{
    let v = vec![
        EuBlock { prefix: "85.214", tz: "Europe/Berlin", country: "DE", lang: "de-DE,de;q=0.9,en;q=0.8", isp: "Strato" },
        EuBlock { prefix: "88.130", tz: "Europe/Berlin", country: "DE", lang: "de-DE,de;q=0.9,en;q=0.8", isp: "Deutsche Telekom" },
        EuBlock { prefix: "91.66", tz: "Europe/Berlin", country: "DE", lang: "de-DE,de;q=0.9,en;q=0.8", isp: "Vodafone DE" },
        EuBlock { prefix: "79.193", tz: "Europe/Berlin", country: "DE", lang: "de-DE,de;q=0.9,en;q=0.8", isp: "1&1" },
        EuBlock { prefix: "92.184", tz: "Europe/Paris", country: "FR", lang: "fr-FR,fr;q=0.9,en;q=0.8", isp: "Orange" },
        EuBlock { prefix: "82.127", tz: "Europe/Paris", country: "FR", lang: "fr-FR,fr;q=0.9,en;q=0.8", isp: "SFR" },
        EuBlock { prefix: "78.112", tz: "Europe/Paris", country: "FR", lang: "fr-FR,fr;q=0.9,en;q=0.8", isp: "Free" },
        EuBlock { prefix: "81.130", tz: "Europe/London", country: "GB", lang: "en-GB,en;q=0.9", isp: "BT" },
        EuBlock { prefix: "213.205", tz: "Europe/London", country: "GB", lang: "en-GB,en;q=0.9", isp: "O2" },
        EuBlock { prefix: "86.147", tz: "Europe/London", country: "GB", lang: "en-GB,en;q=0.9", isp: "Sky Broadband" },
        EuBlock { prefix: "87.213", tz: "Europe/Rome", country: "IT", lang: "it-IT,it;q=0.9,en;q=0.8", isp: "Telecom Italia" },
        EuBlock { prefix: "151.44", tz: "Europe/Rome", country: "IT", lang: "it-IT,it;q=0.9,en;q=0.8", isp: "Wind Tre" },
        EuBlock { prefix: "80.28", tz: "Europe/Madrid", country: "ES", lang: "es-ES,es;q=0.9,en;q=0.8", isp: "Telefonica" },
        EuBlock { prefix: "83.44", tz: "Europe/Madrid", country: "ES", lang: "es-ES,es;q=0.9,en;q=0.8", isp: "Movistar" },
        EuBlock { prefix: "82.161", tz: "Europe/Amsterdam", country: "NL", lang: "nl-NL,nl;q=0.9,en;q=0.8", isp: "KPN" },
        EuBlock { prefix: "77.167", tz: "Europe/Amsterdam", country: "NL", lang: "nl-NL,nl;q=0.9,en;q=0.8", isp: "Ziggo" },
        EuBlock { prefix: "83.8", tz: "Europe/Warsaw", country: "PL", lang: "pl-PL,pl;q=0.9,en;q=0.8", isp: "Orange Polska" },
        EuBlock { prefix: "79.185", tz: "Europe/Warsaw", country: "PL", lang: "pl-PL,pl;q=0.9,en;q=0.8", isp: "Neostrada" },
        EuBlock { prefix: "85.243", tz: "Europe/Lisbon", country: "PT", lang: "pt-PT,pt;q=0.9,en;q=0.8", isp: "MEO" },
        EuBlock { prefix: "90.224", tz: "Europe/Stockholm", country: "SE", lang: "sv-SE,sv;q=0.9,en;q=0.8", isp: "Telia" },
        EuBlock { prefix: "81.240", tz: "Europe/Brussels", country: "BE", lang: "nl-BE,nl;q=0.9,fr;q=0.8,en;q=0.7", isp: "Proximus" },
        EuBlock { prefix: "91.115", tz: "Europe/Berlin", country: "DE", lang: "de-DE,de;q=0.9,en;q=0.8", isp: "A1 Telekom" },
    ];
    assert(v@.map_values(|b: EuBlock| block_view(b)) =~= eu_block_table());
    v
}

/// An address in a block: the block's two octets and two more.
pub open spec fn eu_ip_of(prefix: Seq<char>, a: nat, b: nat) -> Seq<char> {
    prefix + seq!['.'] + decimal(a) + seq!['.'] + decimal(b)
}

pub fn eu_ip(prefix: &str, a: u64, b: u64) -> (r: String)
    ensures
        r@ == eu_ip_of(prefix@, a as nat, b as nat),
{
    let mut out = chars_of(prefix);
    out.push('.');
    push_decimal(&mut out, a);
    out.push('.');
    push_decimal(&mut out, b);
    string_from_chars(out)
}

/// Whether `ip` and `tz` are an address of block `k` (last two octets in `1..254`) and
/// that block's time zone.
pub open spec fn is_block_identity(k: int, ip: Seq<char>, tz: Seq<char>) -> bool {
    &&& 0 <= k < eu_block_table().len()
    &&& exists|a: nat, b: nat|
        1 <= a < 254 && 1 <= b < 254 && ip == #[trigger] eu_ip_of(eu_block_table()[k].0, a, b)
    &&& tz == eu_block_table()[k].1
}

/// A block chosen at random; returns its index in the table.
pub fn random_block_index() -> (k: usize)
    ensures
        k < eu_block_table().len(),
{
    proof {
        assert(eu_block_table().len() == 22);
    }
    random_range(0, 22) as usize
}

/// A random European address and its time zone.
pub fn get_random_european_identity() -> (r: (String, String))
    ensures
        exists|k: int| #[trigger] is_block_identity(k, r.0@, r.1@),
{
    let blocks = european_blocks();
    let k = random_block_index();
    let a = random_range(1, 254);
    let b = random_range(1, 254);
    let blk = blocks[k];
    proof {
        assert(block_view(blk) == eu_block_table()[k as int]);
    }
    let ip = eu_ip(blk.prefix, a, b);
    let tz = string_from_chars(chars_of(blk.tz));
    proof {
        assert(ip@ == eu_ip_of(eu_block_table()[k as int].0, a as nat, b as nat));
        assert(is_block_identity(k as int, ip@, tz@));
    }
    let r = (ip, tz);
    assert(is_block_identity(k as int, r.0@, r.1@));
    r
}

/// A random European address for address headers.
pub fn get_random_european_ip() -> (r: String)
    ensures
        exists|k: int, tz: Seq<char>| #[trigger] is_block_identity(k, r@, tz),
{
    let (ip, tz) = get_random_european_identity();
    ip
}

// ---------------------------------------------------------------------------
// The sticky identity of each host
// ---------------------------------------------------------------------------

/// How long a host keeps its identity, in seconds (four hours).
pub const IDENTITY_LIFETIME_SECS: u64 = 14400;

/// The European identity shown to one host.
#[derive(Debug)]
pub struct IdentityEntry {
    pub ip: String,
    pub tz: String,
    /// When the identity expires, in seconds since the Unix epoch.
    pub expires: u64,
    pub accept_lang: String,
    pub country_code: String,
}

/// An identity by its values: (address, time zone, expiry, language, country).
pub open spec fn entry_view(e: IdentityEntry) -> (Seq<char>, Seq<char>, u64, Seq<char>, Seq<char>) {
    (e.ip@, e.tz@, e.expires, e.accept_lang@, e.country_code@)
}

impl IdentityEntry {
    pub fn copy(&self) -> (r: IdentityEntry)
        ensures
            entry_view(r) == entry_view(*self),
    {
        IdentityEntry {
            ip: self.ip.clone(),
            tz: self.tz.clone(),
            expires: self.expires,
            accept_lang: self.accept_lang.clone(),
            country_code: self.country_code.clone(),
        }
    }
}

/// Whether the address, time zone, language and country of an identity are those of
/// block `k`.
pub open spec fn is_block_entry(k: int, e: (Seq<char>, Seq<char>, u64, Seq<char>, Seq<char>)) -> bool {
    is_block_identity(k, e.0, e.1) && e.3 == eu_block_table()[k].3 && e.4 == eu_block_table()[k].2
}

/// Whether an identity belongs to one block and expires at `expires`.
pub open spec fn is_fresh_identity(e: (Seq<char>, Seq<char>, u64, Seq<char>, Seq<char>), expires: u64) -> bool {
    e.2 == expires && exists|k: int| #[trigger] is_block_entry(k, e)
}

/// A new identity from a random block, expiring at `expires`.
pub fn new_identity(expires: u64) -> (r: IdentityEntry)
    ensures
        is_fresh_identity(entry_view(r), expires),
{
    let blocks = european_blocks();
    let k = random_block_index();
    let a = random_range(1, 254);
    let b = random_range(1, 254);
    let blk = blocks[k];
    proof {
        assert(block_view(blk) == eu_block_table()[k as int]);
    }
    let r = IdentityEntry {
        ip: eu_ip(blk.prefix, a, b),
        tz: string_from_chars(chars_of(blk.tz)),
        expires,
        accept_lang: string_from_chars(chars_of(blk.lang)),
        country_code: string_from_chars(chars_of(blk.country)),
    };
    proof {
        assert(r.ip@ == eu_ip_of(eu_block_table()[k as int].0, a as nat, b as nat));
        assert(is_block_identity(k as int, r.ip@, r.tz@));
        assert(is_block_identity(k as int, entry_view(r).0, entry_view(r).1));
        assert(is_block_entry(k as int, entry_view(r)));
    }
    r
}

/// An identity by its values.
pub type EntryView = (Seq<char>, Seq<char>, u64, Seq<char>, Seq<char>);

/// One request for the identity of `host` at time `now`: the cached identity while it
/// has not expired, else `fresh`, which is cached from then on. Gives the identity and
/// the cache after the request.
pub open spec fn identity_step(m: Map<Seq<char>, EntryView>, host: Seq<char>, now: u64, fresh: EntryView) -> (EntryView, Map<Seq<char>, EntryView>) {
    if m.contains_key(host) && now < m[host].2 {
        (m[host], m)
    } else {
        (fresh, m.insert(host, fresh))
    }
}

/// The identity each host was last shown. Every kept identity is an address of one of
/// the blocks with that block's time zone, language and country.
pub struct IdentityCache {
    entries: StringHashMap<IdentityEntry>,
}

impl IdentityCache {
    pub closed spec fn view_map(&self) -> Map<Seq<char>, EntryView> {
        self.entries@.map_values(|e: IdentityEntry| entry_view(e))
    }

    /// Every kept identity is one of a block, and expires when it says.
    #[verifier::type_invariant]
    spec fn wf(&self) -> bool {
        forall|h: Seq<char>| #[trigger] self.view_map().contains_key(h) ==> is_fresh_identity(self.view_map()[h], self.view_map()[h].2)
    }

    pub fn new() -> (r: IdentityCache)
        ensures
            r.view_map() == Map::<Seq<char>, EntryView>::empty(),
    {
        let r = IdentityCache { entries: StringHashMap::new() };
        assert(r.view_map() =~= Map::empty());
        r
    }

    /// The identity of `host` at time `now` (see `identity_step`); `fresh` must be an
    /// identity of a block.
    pub fn identity_at(&mut self, host: &str, now: u64, fresh: IdentityEntry) -> (r: IdentityEntry)
        requires
            is_fresh_identity(entry_view(fresh), fresh.expires),
        ensures
            (entry_view(r), final(self).view_map()) == identity_step(old(self).view_map(), host@, now, entry_view(fresh)),
    {
        proof {
            use_type_invariant(&*self);
        }
        match self.entries.get(host) {
            Some(e) => {
                if now < e.expires {
                    return e.copy();
                }
            },
            None => {},
        }
        let kept = fresh.copy();
        let ghost before = self.view_map();
        let mut m: StringHashMap<IdentityEntry> = StringHashMap::new();
        std::mem::swap(&mut m, &mut self.entries);
        m.insert(string_from_chars(chars_of(host)), fresh);
        assert(m@.map_values(|e: IdentityEntry| entry_view(e)) =~= before.insert(host@, entry_view(kept)));
        self.entries = m;
        kept
    }
}

/// Forget the identity of `host`, so that the next request gets a new one.
pub fn clear_sticky_identity(cache: &mut IdentityCache, host: &str)
    ensures
        final(cache).view_map() == old(cache).view_map().remove(host@),
{
    proof {
        use_type_invariant(&*cache);
    }
    let ghost before = cache.view_map();
    let mut m: StringHashMap<IdentityEntry> = StringHashMap::new();
    std::mem::swap(&mut m, &mut cache.entries);
    m.remove(host);
    assert(m@.map_values(|e: IdentityEntry| entry_view(e)) =~= before.remove(host@));
    cache.entries = m;
}

/// Whether `ev` and the cache `after` are what one request for the identity of `host`
/// gives on the cache `before` at time `now`: the cached identity while it has not
/// expired, else a new identity, kept for four hours from then.
pub open spec fn is_identity_request_at(
    before: Map<Seq<char>, EntryView>,
    host: Seq<char>,
    now: u64,
    ev: EntryView,
    after: Map<Seq<char>, EntryView>,
) -> bool {
    &&& identity_step(before, host, now, ev) == (ev, after)
    &&& !(before.contains_key(host) && now < before[host].2) ==> ev.2 == expiry(now, IDENTITY_LIFETIME_SECS)
}

/// Whether `ev` and the cache `after` are what one request for the identity of `host`
/// gives on the cache `before` at some time (see `is_identity_request_at`).
pub open spec fn is_identity_request(
    before: Map<Seq<char>, EntryView>,
    host: Seq<char>,
    ev: EntryView,
    after: Map<Seq<char>, EntryView>,
) -> bool {
    exists|now: u64| #[trigger] is_identity_request_at(before, host, now, ev, after)
}

/// The identity of `host` now: the cached one for four hours, then a random new one.
/// The clock decides which: whatever it reads, the result is one request as
/// `is_identity_request` describes it.
pub fn get_or_create_identity(cache: &mut IdentityCache, host: &str) -> (r: IdentityEntry)
    ensures
        is_identity_request(old(cache).view_map(), host@, entry_view(r), final(cache).view_map()),
        is_fresh_identity(entry_view(r), entry_view(r).2),
{
    proof {
        use_type_invariant(&*cache);
    }
    let now = now_secs();
    let ghost m = cache.view_map();
    match cache.entries.get(host) {
        Some(e) => {
            if now < e.expires {
                let r = e.copy();
                assert(m.contains_key(host@));
                assert(is_identity_request_at(m, host@, now, entry_view(r), cache.view_map()));
                return r;
            }
        },
        None => {},
    }
    let fresh = new_identity(now.saturating_add(IDENTITY_LIFETIME_SECS));
    let ghost fv = entry_view(fresh);
    let r = cache.identity_at(host, now, fresh);
    assert(entry_view(r).2 == expiry(now, IDENTITY_LIFETIME_SECS));
    assert(is_identity_request_at(m, host@, now, entry_view(r), cache.view_map()));
    r
}

/// The sticky address and time zone of `host`: those of one request for its identity
/// (see `is_identity_request`), an address of one block with that block's time zone.
pub fn get_sticky_european_identity(cache: &mut IdentityCache, host: &str) -> (r: (String, String))
    ensures
        exists|ev: EntryView|
            #[trigger] is_identity_request(old(cache).view_map(), host@, ev, final(cache).view_map()) && r.0@ == ev.0
                && r.1@ == ev.1 && is_fresh_identity(ev, ev.2),
        exists|k: int| #[trigger] is_block_identity(k, r.0@, r.1@),
{
    let e = get_or_create_identity(cache, host);
    let ghost ev = entry_view(e);
    let r = (e.ip, e.tz);
    proof {
        let k = choose|k: int| #[trigger] is_block_entry(k, ev);
        assert(is_block_identity(k, r.0@, r.1@));
        assert(is_identity_request(old(cache).view_map(), host@, ev, cache.view_map()));
    }
    r
}

/// The Accept-Language of the sticky identity of `host`: that of one request for its
/// identity (see `is_identity_request`), the language of the identity's block.
pub fn get_sticky_accept_language(cache: &mut IdentityCache, host: &str) -> (r: String)
    ensures
        exists|ev: EntryView|
            #[trigger] is_identity_request(old(cache).view_map(), host@, ev, final(cache).view_map()) && r@ == ev.3
                && is_fresh_identity(ev, ev.2),
        exists|k: int| 0 <= k < eu_block_table().len() && r@ == #[trigger] eu_block_table()[k].3,
{
    let e = get_or_create_identity(cache, host);
    let ghost ev = entry_view(e);
    proof {
        let k = choose|k: int| #[trigger] is_block_entry(k, ev);
        assert(0 <= k < eu_block_table().len() && e.accept_lang@ == eu_block_table()[k].3);
        assert(is_identity_request(old(cache).view_map(), host@, ev, cache.view_map()));
    }
    e.accept_lang
}

/// The country code of the sticky identity of `host`: that of one request for its
/// identity (see `is_identity_request`), the country of the identity's block.
pub fn get_sticky_country_code(cache: &mut IdentityCache, host: &str) -> (r: String)
    ensures
        exists|ev: EntryView|
            #[trigger] is_identity_request(old(cache).view_map(), host@, ev, final(cache).view_map()) && r@ == ev.4
                && is_fresh_identity(ev, ev.2),
        exists|k: int| 0 <= k < eu_block_table().len() && r@ == #[trigger] eu_block_table()[k].2,
{
    let e = get_or_create_identity(cache, host);
    let ghost ev = entry_view(e);
    proof {
        let k = choose|k: int| #[trigger] is_block_entry(k, ev);
        assert(0 <= k < eu_block_table().len() && e.country_code@ == eu_block_table()[k].2);
        assert(is_identity_request(old(cache).view_map(), host@, ev, cache.view_map()));
    }
    e.country_code
}

/// After a host's identity is forgotten, the next request for it keeps a new identity
/// for four hours from the time of the request, and leaves every other host as it was.
pub proof fn law_cleared_host_gets_new_identity(
    before: Map<Seq<char>, EntryView>,
    host: Seq<char>,
    ev: EntryView,
    after: Map<Seq<char>, EntryView>,
)
    requires
        is_identity_request(before.remove(host), host, ev, after),
    ensures
        after == before.remove(host).insert(host, ev),
        exists|now: u64| ev.2 == #[trigger] expiry(now, IDENTITY_LIFETIME_SECS),
{
    let now = choose|now: u64| #[trigger] is_identity_request_at(before.remove(host), host, now, ev, after);
    assert(ev.2 == expiry(now, IDENTITY_LIFETIME_SECS));
}

/// A host keeps its identity across requests: a request made before the identity that
/// an earlier request gave expires gives that same identity, and leaves the cache as the
/// earlier request left it.
pub proof fn law_identity_requests_are_sticky(
    before: Map<Seq<char>, EntryView>,
    host: Seq<char>,
    now1: u64,
    ev1: EntryView,
    mid: Map<Seq<char>, EntryView>,
    now2: u64,
    ev2: EntryView,
    after: Map<Seq<char>, EntryView>,
)
    requires
        is_identity_request_at(before, host, now1, ev1, mid),
        is_identity_request_at(mid, host, now2, ev2, after),
        now2 < ev1.2,
    ensures
        ev2 == ev1,
        after == mid,
{
    assert(mid.contains_key(host) && mid[host] == ev1);
}

/// An identity that a request gives is one block's: its address lies in the block, and
/// its time zone (a European one), language and country (two capital letters) are the
/// block's.
pub proof fn law_identity_is_one_block(ev: EntryView)
    requires
        is_fresh_identity(ev, ev.2),
    ensures
        exists|k: int|
            #[trigger] is_block_identity(k, ev.0, ev.1) && ev.3 == eu_block_table()[k].3 && ev.4 == eu_block_table()[k].2,
        crate::text::starts_with(ev.1, "Europe/"@),
        is_country_code(ev.4),
{
    law_block_table();
    let k = choose|k: int| #[trigger] is_block_entry(k, ev);
    assert(is_block_identity(k, ev.0, ev.1));
    assert(block_countries().contains(eu_block_table()[k].2));
    lemma_countries_are_codes();
}

/// A host keeps its identity: a second request before the identity expires gives the
/// same identity and leaves the cache as the first request left it.
pub proof fn law_identity_is_sticky(
    m: Map<Seq<char>, EntryView>,
    host: Seq<char>,
    now1: u64,
    now2: u64,
    fresh1: EntryView,
    fresh2: EntryView,
)
    requires
        now2 < identity_step(m, host, now1, fresh1).0.2,
    ensures
        identity_step(identity_step(m, host, now1, fresh1).1, host, now2, fresh2) == (
            identity_step(m, host, now1, fresh1).0,
            identity_step(m, host, now1, fresh1).1,
        ),
{
}

/// Forgetting a host's identity makes the next request give the new identity.
pub proof fn law_cleared_identity_is_replaced(m: Map<Seq<char>, EntryView>, host: Seq<char>, now: u64, fresh: EntryView)
    ensures
        identity_step(m.remove(host), host, now, fresh).0 == fresh,
{
}


// ---------------------------------------------------------------------------
// Answers kept for a while
// ---------------------------------------------------------------------------

/// Values kept per host until they expire (resolved addresses, time zones).
#[verifier::reject_recursive_types(V)]
pub struct ExpiringCache<V> {
    pub entries: StringHashMap<(V, u64)>,
}

impl<V: Clone> ExpiringCache<V> {
    pub fn new() -> (r: Self)
        ensures
            r.entries@ == Map::<Seq<char>, (V, u64)>::empty(),
    {
        ExpiringCache { entries: StringHashMap::new() }
    }

    /// The value kept for `host` if it has not expired at `now`.
    pub fn fresh_value(&self, host: &str, now: u64) -> (r: Option<V>)
        ensures
            match r {
                Some(v) => is_fresh(self.entries@, host@, now) && cloned::<V>(self.entries@[host@].0, v),
                None => !is_fresh(self.entries@, host@, now),
            },
    {
        match self.entries.get(host) {
            Some(e) => if now < e.1 {
                Some(e.0.clone())
            } else {
                None
            },
            None => None,
        }
    }

    /// Keep `value` for `host` from `now` for `lifetime` seconds.
    pub fn keep(&mut self, host: &str, value: V, now: u64, lifetime: u64)
        ensures
            final(self).entries@ == old(self).entries@.insert(host@, (value, expiry(now, lifetime))),
    {
        let expires = now.saturating_add(lifetime);
        self.entries.insert(string_from_chars(chars_of(host)), (value, expires));
    }
}

impl<V: Clone> ExpiringCache<V> {
    /// The value kept for `host` if it has not expired now: whatever the clock reads, as
    /// `fresh_value` gives it at that time.
    pub fn current_value(&self, host: &str) -> (r: Option<V>)
        ensures
            exists|now: u64|
                #[trigger] is_fresh(self.entries@, host@, now) == (r is Some) && (r matches Some(v) ==> cloned::<V>(
                    self.entries@[host@].0,
                    v,
                )),
    {
        let now = now_secs();
        let r = self.fresh_value(host, now);
        assert(is_fresh(self.entries@, host@, now) == (r is Some));
        r
    }

    /// Keep `value` for `host` from now for `lifetime` seconds, whatever the clock reads.
    pub fn keep_now(&mut self, host: &str, value: V, lifetime: u64)
        ensures
            exists|now: u64|
                #[trigger] expiry(now, lifetime) == final(self).entries@[host@].1 && final(self).entries@
                    == old(self).entries@.insert(host@, (value, expiry(now, lifetime))),
    {
        let now = now_secs();
        self.keep(host, value, now, lifetime);
        assert(expiry(now, lifetime) == self.entries@[host@].1);
    }
}

/// Whether an entry for `host` is kept and has not expired at `now`.
pub open spec fn is_fresh<V>(entries: Map<Seq<char>, (V, u64)>, host: Seq<char>, now: u64) -> bool {
    entries.contains_key(host) && now < entries[host].1
}

/// When an entry kept at `now` for `lifetime` seconds expires (at the end of time where
/// the sum does not fit).
pub open spec fn expiry(now: u64, lifetime: u64) -> u64 {
    if now + lifetime > u64::MAX {
        u64::MAX
    } else {
        (now + lifetime) as u64
    }
}

/// A value kept in a cache is handed out for its whole lifetime and not after it, and
/// keeping it leaves every other host's entry as it was.
pub proof fn law_kept_value_is_fresh<V>(
    before: Map<Seq<char>, (V, u64)>,
    host: Seq<char>,
    other: Seq<char>,
    value: V,
    now: u64,
    lifetime: u64,
    t: u64,
)
    requires
        now + lifetime <= u64::MAX,
    ensures
        is_fresh(before.insert(host, (value, expiry(now, lifetime))), host, t) <==> t < now + lifetime,
        before.insert(host, (value, expiry(now, lifetime)))[host].0 == value,
        other != host ==> (is_fresh(before.insert(host, (value, expiry(now, lifetime))), other, t)
            <==> is_fresh(before, other, t)),
{
}

/// How long resolved addresses are kept, in seconds.
pub const DNS_LIFETIME_SECS: u64 = 300;

/// How long a looked-up European time zone is kept, in seconds.
pub const TZ_LIFETIME_SECS: u64 = 3600;

/// How long the server's own time zone is kept, in seconds.
pub const LOCAL_TZ_LIFETIME_SECS: u64 = 86400;

// ---------------------------------------------------------------------------
// DNS over HTTPS with a European client subnet
// ---------------------------------------------------------------------------

/// The DNS-over-HTTPS providers, as (address, Accept type).
pub open spec fn doh_provider_table() -> Seq<(Seq<char>, Seq<char>)> {
    seq![
        ("https://dns.google/resolve"@, "application/dns-json"@),
        ("https://cloudflare-dns.com/dns-query"@, "application/dns-json"@),
        ("https://dns.nextdns.io/dns-query"@, "application/dns-json"@),
    ]
}

pub fn doh_providers() -> (r: Vec<(&'static str, &'static str)>)
    ensures
        r@.map_values(|p: (&'static str, &'static str)| (p.0@, p.1@)) == doh_provider_table(),
{
    let v = vec![
        ("https://dns.google/resolve", "application/dns-json"),
        ("https://cloudflare-dns.com/dns-query", "application/dns-json"),
        ("https://dns.nextdns.io/dns-query", "application/dns-json"),
    ];
    assert(v@.map_values(|p: (&'static str, &'static str)| (p.0@, p.1@)) =~= doh_provider_table());
    v
}

/// The query for the A records of `hostname`, carrying the subnet of `ecs_ip`.
pub open spec fn doh_query_url_of(provider: Seq<char>, hostname: Seq<char>, ecs_ip: Seq<char>) -> Seq<char> {
    provider + "?name="@ + hostname + "&type=A&edns_client_subnet="@ + ecs_ip + "/24"@
}

pub fn doh_query_url(provider: &str, hostname: &str, ecs_ip: &str) -> (r: String)
    ensures
        r@ == doh_query_url_of(provider@, hostname@, ecs_ip@),
{
    let mut out = chars_of(provider);
    push_str(&mut out, "?name=");
    push_str(&mut out, hostname);
    push_str(&mut out, "&type=A&edns_client_subnet=");
    push_str(&mut out, ecs_ip);
    push_str(&mut out, "/24");
    string_from_chars(out)
}

/// A DoH query for `hostname` through a random provider, with a random European
/// subnet; gives the query address and the provider's Accept type.
pub fn random_doh_query(hostname: &str) -> (r: (String, String))
    ensures
        exists|p: int, k: int, ecs: Seq<char>, tz: Seq<char>|
            #![trigger is_block_identity(k, ecs, tz), doh_provider_table()[p]]
            0 <= p < doh_provider_table().len() && is_block_identity(k, ecs, tz) && r.0@
                == doh_query_url_of(doh_provider_table()[p].0, hostname@, ecs) && r.1@ == doh_provider_table()[p].1,
{
    let (ecs, tz) = get_random_european_identity();
    let providers = doh_providers();
    let p = random_range(0, 3) as usize;
    proof {
        assert(doh_provider_table().len() == 3);
        assert(providers@.map_values(|q: (&'static str, &'static str)| (q.0@, q.1@)).len() == providers@.len());
        assert(providers@.map_values(|q: (&'static str, &'static str)| (q.0@, q.1@))[p as int] == (providers@[p as int].0@, providers@[p as int].1@));
    }
    let (url, accept) = providers[p];
    let q = doh_query_url(url, hostname, ecs.as_str());
    let r = (q, string_from_chars(chars_of(accept)));
    proof {
        let k = choose|k: int| #[trigger] is_block_identity(k, ecs@, tz@);
        assert(is_block_identity(k, ecs@, tz@) && r.0@ == doh_query_url_of(doh_provider_table()[p as int].0, hostname@, ecs@)
            && r.1@ == doh_provider_table()[p as int].1);
    }
    r
}

/// One octet of a dotted IPv4 address: one to three decimal digits without a leading
/// zero (but `0` itself), at most 255.
pub open spec fn octet_of(d: Seq<char>) -> Option<u8> {
    if 1 <= d.len() <= 3 && all_digits(d) && !(d.len() > 1 && d[0] == '0') && digits_value(d) <= 255 {
        Some(digits_value(d) as u8)
    } else {
        None
    }
}

/// `str::parse::<std::net::Ipv4Addr>`: four octets separated by dots, as the octets.
pub open spec fn ipv4_of(s: Seq<char>) -> Option<(u8, u8, u8, u8)> {
    let p = split_on(s, '.');
    if p.len() == 4 {
        match (octet_of(p[0]), octet_of(p[1]), octet_of(p[2]), octet_of(p[3])) {
            (Some(a), Some(b), Some(c), Some(d)) => Some((a, b, c, d)),
            _ => None,
        }
    } else {
        None
    }
}

fn parse_octet(d: &Vec<char>) -> (r: Option<u8>)
    ensures
        r == octet_of(d@),
{
    if d.len() < 1 || d.len() > 3 || (d.len() > 1 && d[0] == '0') {
        return None;
    }
    match digits_value_bounded(d, 255) {
        Some(v) => Some(v as u8),
        None => None,
    }
}

/// The octets of a dotted IPv4 address, if `s` is one.
pub fn parse_ipv4(s: &str) -> (r: Option<(u8, u8, u8, u8)>)
    ensures
        r == ipv4_of(s@),
{
    let p = split_char(s, '.');
    let ghost pv = p@.map_values(|w: Vec<char>| w@);
    if p.len() != 4 {
        return None;
    }
    assert(pv[0] == p@[0]@ && pv[1] == p@[1]@ && pv[2] == p@[2]@ && pv[3] == p@[3]@);
    match (parse_octet(&p[0]), parse_octet(&p[1]), parse_octet(&p[2]), parse_octet(&p[3])) {
        (Some(a), Some(b), Some(c), Some(d)) => Some((a, b, c, d)),
        _ => None,
    }
}

/// The IPv4 addresses among the `data` texts of a DoH answer, in order (IPv6 answers
/// and texts that are no address are dropped).
pub open spec fn answer_ips_of(data: Seq<Seq<char>>) -> Seq<(u8, u8, u8, u8)>
    decreases data.len(),
{
    if data.len() == 0 {
        Seq::empty()
    } else {
        match ipv4_of(data.last()) {
            Some(a) => answer_ips_of(data.drop_last()).push(a),
            None => answer_ips_of(data.drop_last()),
        }
    }
}

pub fn answer_ips(data: &Vec<String>) -> (r: Vec<(u8, u8, u8, u8)>)
    ensures
        r@ == answer_ips_of(data@.map_values(|s: String| s@)),
{
    let ghost dv = data@.map_values(|s: String| s@);
    let mut out: Vec<(u8, u8, u8, u8)> = Vec::new();
    let mut i: usize = 0;
    while i < data.len()
        invariant
            i <= data.len(),
            dv == data@.map_values(|s: String| s@),
            out@ == answer_ips_of(dv.subrange(0, i as int)),
        decreases data.len() - i,
    {
        let ghost after = dv.subrange(0, i + 1);
        assert(after.drop_last() =~= dv.subrange(0, i as int));
        assert(after.last() == data@[i as int]@);
        match parse_ipv4(data[i].as_str()) {
            Some(a) => out.push(a),
            None => {},
        }
        i += 1;
    }
    assert(dv.subrange(0, dv.len() as int) =~= dv);
    out
}

// ---------------------------------------------------------------------------
// Time zones
// ---------------------------------------------------------------------------

/// The geolocation query for the time zone of a block (its `.0.1` address).
pub open spec fn timezone_query_url_of(prefix: Seq<char>) -> Seq<char> {
    "http://ip-api.com/json/"@ + prefix + ".0.1?fields=timezone"@
}

pub fn timezone_query_url(prefix: &str) -> (r: String)
    ensures
        r@ == timezone_query_url_of(prefix@),
{
    let mut out = chars_of("http://ip-api.com/json/");
    push_str(&mut out, prefix);
    push_str(&mut out, ".0.1?fields=timezone");
    string_from_chars(out)
}

/// The time zone from a geolocation answer, or `fallback` where it has none.
pub fn timezone_or(answer: Option<String>, fallback: &str) -> (r: String)
    ensures
        r@ == match answer {
            Some(t) => t@,
            None => fallback@,
        },
{
    match answer {
        Some(t) => t,
        None => string_from_chars(chars_of(fallback)),
    }
}

} // verus!
