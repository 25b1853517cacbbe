//! Random selection of an asset file from a directory listing.

use vstd::prelude::*;
use vstd::arithmetic::div_mod::lemma_mod_bound;
use rand::Rng;

verus! {

/// Why overlay setup cannot proceed.
#[derive(Clone, Copy, PartialEq, Eq, Structural, Debug)]
pub enum SetupError {
    /// The asset directory holds no files at all.
    EmptyDirectory,
}

/// Deterministic part of random selection: the entry of `files` that the
/// draw lands on, reducing the draw modulo the number of entries. An empty
/// listing is a fatal configuration error, reported as such.
pub fn pick_from(files: &Vec<String>, draw: u32) -> (r: Result<String, SetupError>)
    ensures
        files@.len() == 0 <==> r is Err,
        r is Err ==> r->Err_0 == SetupError::EmptyDirectory,
        files@.len() > 0 ==> r is Ok && r->Ok_0@ == files@[draw as int % files@.len() as int]@,
{
    if files.len() == 0 {
        Err(SetupError::EmptyDirectory)
    } else {
        let i: usize = (draw as usize) % files.len();
        Ok(files[i].clone())
    }
}

/// Relies on rand::rng and rand_core's Rng::next_u32: an arbitrary
/// 32-bit draw from the thread-local generator. Nothing is assumed about
/// the value; rand::rng aborts only if the operating system cannot seed
/// the generator at all.
#[verifier::external_body]
fn random_draw() -> u32 {
    rand::rng().next_u32()
}

/// A random entry of the listing, every entry being a possible result, or
/// a fatal error on an empty listing.
pub fn pick_random_file(files: &Vec<String>) -> (r: Result<String, SetupError>)
    ensures
        files@.len() == 0 <==> r is Err,
        r is Err ==> r->Err_0 == SetupError::EmptyDirectory,
        r is Ok ==> exists|i: int| 0 <= i < files@.len() && r->Ok_0@ == files@[i]@,
{
    let draw = random_draw();
    let r = pick_from(files, draw);
    proof {
        if files@.len() > 0 {
            lemma_mod_bound(draw as int, files@.len() as int);
            let w = draw as int % files@.len() as int;
            assert(0 <= w < files@.len() && r->Ok_0@ == files@[w]@);
        }
    }
    r
}

} // verus!
