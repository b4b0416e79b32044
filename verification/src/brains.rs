//! The "brain" catalog: the language model builds the game can load.
use vstd::prelude::*;
use vstd::string::StringExecFns;
use crate::text::{chars_eq, chars_of};

verus! {

/// One downloadable model.
#[derive(Clone, Copy)]
pub struct Brain {
    pub id: &'static str,
    pub label: &'static str,
    pub blurb: &'static str,
    pub repo: &'static str,
    pub main_file: &'static str,
    pub main_size_bytes: u64,
}

/// The only brain, loaded on startup.
pub const ACTIVE: &'static str = "gemma-4-e2b";

/// The brains on offer.
pub open spec fn catalog_spec() -> Seq<Brain> {
    seq![
        Brain {
            id: ACTIVE,
            label: "Gemma 4 E2B QAT",
            blurb: "A small, sharp Gemma 4. Downloads the QAT text model on first run.",
            repo: "google/gemma-4-E2B-it-qat-q4_0-gguf",
            main_file: "gemma-4-E2B_q4_0-it.gguf",
            main_size_bytes: 3_350_000_000,
        },
    ]
}

/// The first brain of `brains` whose id is `id`.
pub open spec fn first_with_id(brains: Seq<Brain>, id: Seq<char>) -> Option<Brain>
    decreases brains.len(),
{
    if brains.len() == 0 {
        None
    } else if brains[0].id@ == id {
        Some(brains[0])
    } else {
        first_with_id(brains.drop_first(), id)
    }
}

/// The brains on offer.
pub fn catalog() -> (r: Vec<Brain>)
    ensures
        r@ == catalog_spec(),
{
    let r = vec![
        Brain {
            id: ACTIVE,
            label: "Gemma 4 E2B QAT",
            blurb: "A small, sharp Gemma 4. Downloads the QAT text model on first run.",
            repo: "google/gemma-4-E2B-it-qat-q4_0-gguf",
            main_file: "gemma-4-E2B_q4_0-it.gguf",
            main_size_bytes: 3_350_000_000,
        },
    ];
    assert(r@ =~= catalog_spec());
    r
}

/// The catalog entry with the given id.
pub fn find(id: &str) -> (r: Option<Brain>)
    ensures
        r == first_with_id(catalog_spec(), id@),
{
    let brains = catalog();
    let wanted = chars_of(id);
    let n = brains.len();
    let mut i: usize = 0;
    assert(brains@.skip(0) =~= brains@);
    while i < n
        invariant
            0 <= i <= n,
            n == brains@.len(),
            brains@ == catalog_spec(),
            wanted@ == id@,
            first_with_id(catalog_spec(), id@) == first_with_id(brains@.skip(i as int), id@),
        decreases n - i,
    {
        assert(brains@.skip(i as int)[0] == brains@[i as int]);
        assert(brains@.skip(i as int).drop_first() =~= brains@.skip(i + 1));
        if chars_eq(&chars_of(brains[i].id), &wanted) {
            return Some(brains[i]);
        }
        i += 1;
    }
    None
}

/// The brain loaded on startup.
pub fn active() -> (r: Brain)
    ensures
        r == catalog_spec()[0],
{
    match find(ACTIVE) {
        Some(b) => b,
        None => {
            assert(first_with_id(catalog_spec(), ACTIVE@) is Some);
            catalog()[0]
        },
    }
}

impl Brain {
    /// The download URL of one of this brain's files.
    pub fn resolve_url(&self, file: &str) -> (r: String)
        ensures
            r@ == "https://huggingface.co/"@ + self.repo@ + "/resolve/main/"@ + file@,
    {
        let mut url = String::from_str("https://huggingface.co/");
        url.append(self.repo);
        url.append("/resolve/main/");
        url.append(file);
        url
    }
}

} // verus!
