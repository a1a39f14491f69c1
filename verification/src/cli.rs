//! Decisions of the command-line downloader: the base URL of a playlist address, the
//! check on the output file name, and the tally of finished downloads.
use vstd::prelude::*;
use crate::text::{chars_of, rfind_char, rfind_char_in, string_of_range};

verus! {

/// The base URL of a playlist address: the address up to its last `/`, or all of it
/// where it holds none.
pub open spec fn base_url_spec(url: Seq<char>) -> Seq<char> {
    match rfind_char(url, '/') {
        Some(i) => url.take(i),
        None => url,
    }
}

/// The position `rfind_char` gives holds `c`, and no later position does.
pub proof fn lemma_rfind_char_is_last(s: Seq<char>, c: char)
    ensures
        match rfind_char(s, c) {
            Some(i) => 0 <= i < s.len() && s[i] == c && forall|j: int| i < j < s.len() ==> s[j] != c,
            None => forall|j: int| 0 <= j < s.len() ==> s[j] != c,
        },
    decreases s.len(),
{
    if s.len() > 0 && s.last() != c {
        lemma_rfind_char_is_last(s.drop_last(), c);
        assert forall|j: int| 0 <= j < s.len() - 1 implies s.drop_last()[j] == s[j] by {}
    }
}

/// The base URL is the address up to its last `/`: the address is the base URL, a `/`
/// and a last part that holds no `/`; an address without `/` is its own base URL.
pub proof fn lemma_base_url_splits_at_last_slash(url: Seq<char>)
    ensures
        url.contains('/') ==> exists|rest: Seq<char>|
            base_url_spec(url) + seq!['/'] + rest == url && !rest.contains('/'),
        !url.contains('/') ==> base_url_spec(url) == url,
{
    lemma_rfind_char_is_last(url, '/');
    match rfind_char(url, '/') {
        Some(i) => {
            let rest = url.skip(i + 1);
            assert(url.take(i) + seq!['/'] + rest =~= url);
            assert(!rest.contains('/')) by {
                if rest.contains('/') {
                    let j = choose|j: int| 0 <= j < rest.len() && rest[j] == '/';
                    assert(url[i + 1 + j] == '/');
                }
            }
        },
        None => {
            assert(!url.contains('/'));
        },
    }
}

/// The base URL of a playlist address (the address up to its last `/`).
pub fn base_url_of(url: &str) -> (r: String)
    ensures
        r@ == base_url_spec(url@),
{
    let cs = chars_of(url);
    match rfind_char_in(&cs, '/') {
        Some(i) => {
            proof {
                lemma_rfind_char_is_last(cs@, '/');
            }
            assert(cs@.subrange(0, i as int) =~= cs@.take(i as int));
            string_of_range(&cs, 0, i)
        },
        None => {
            assert(cs@.subrange(0, cs@.len() as int) =~= cs@);
            string_of_range(&cs, 0, cs.len())
        },
    }
}

/// What is wrong with a name given for the output file.
#[derive(Debug, Clone, Copy, PartialEq, Eq)]
pub enum OutputNameError {
    /// No name was given.
    Empty,
    /// The name has no `.` and so no extension.
    NoExtension,
}

/// Checks a name given for the output file: it must not be empty and must hold a `.`.
pub fn check_output_name(name: &str) -> (r: Result<(), OutputNameError>)
    ensures
        r == Err::<(), OutputNameError>(OutputNameError::Empty) <==> name@.len() == 0,
        r == Err::<(), OutputNameError>(OutputNameError::NoExtension) <==> (name@.len() > 0
            && !name@.contains('.')),
        r is Ok <==> name@.contains('.'),
{
    let cs = chars_of(name);
    if cs.len() == 0 {
        return Err(OutputNameError::Empty);
    }
    let mut i: usize = 0;
    while i < cs.len()
        invariant
            i <= cs@.len(),
            cs@ == name@,
            forall|j: int| 0 <= j < i ==> cs@[j] != '.',
        decreases cs@.len() - i,
    {
        if cs[i] == '.' {
            assert(name@[i as int] == '.');
            return Ok(());
        }
        i = i + 1;
    }
    Err(OutputNameError::NoExtension)
}

/// The paths of the segments that downloaded, in the order the results came in.
pub open spec fn succeeded<E>(results: Seq<(usize, Result<String, E>)>) -> Seq<Seq<char>>
    decreases results.len(),
{
    if results.len() == 0 {
        Seq::empty()
    } else {
        let before = succeeded(results.drop_last());
        match results.last().1 {
            Ok(p) => before.push(p@),
            Err(_) => before,
        }
    }
}

/// How many segments failed to download.
pub open spec fn failed_count<E>(results: Seq<(usize, Result<String, E>)>) -> nat
    decreases results.len(),
{
    if results.len() == 0 {
        0
    } else {
        failed_count(results.drop_last()) + match results.last().1 {
            Ok(_) => 0nat,
            Err(_) => 1nat,
        }
    }
}

/// Every result is counted once: as a downloaded path or as a failure.
pub proof fn lemma_tally_counts_all<E>(results: Seq<(usize, Result<String, E>)>)
    ensures
        succeeded(results).len() + failed_count(results) == results.len(),
    decreases results.len(),
{
    if results.len() > 0 {
        lemma_tally_counts_all(results.drop_last());
    }
}

/// The results that are downloaded paths, in order.
pub open spec fn ok_results<E>(results: Seq<(usize, Result<String, E>)>) -> Seq<
    (usize, Result<String, E>),
> {
    results.filter(|r: (usize, Result<String, E>)| r.1 is Ok)
}

/// The results that are failures, in order.
pub open spec fn err_results<E>(results: Seq<(usize, Result<String, E>)>) -> Seq<
    (usize, Result<String, E>),
> {
    results.filter(|r: (usize, Result<String, E>)| r.1 is Err)
}

/// The path a downloaded result holds.
pub open spec fn result_path<E>(r: (usize, Result<String, E>)) -> Seq<char> {
    r.1->Ok_0@
}

/// The downloaded paths are exactly those of the `Ok` results, in the order the results
/// came, and the failures counted are exactly the `Err` results, whatever segment index
/// each result carries.
pub proof fn lemma_tally_is_ok_and_err_results<E>(results: Seq<(usize, Result<String, E>)>)
    ensures
        succeeded(results) == ok_results(results).map_values(
            |r: (usize, Result<String, E>)| result_path(r),
        ),
        succeeded(results).len() == ok_results(results).len(),
        failed_count(results) == err_results(results).len(),
    decreases results.len(),
{
    reveal(Seq::filter);
    if results.len() > 0 {
        let front = results.drop_last();
        lemma_tally_is_ok_and_err_results(front);
        let last = results.last();
        assert(ok_results(results) == if last.1 is Ok {
            ok_results(front).push(last)
        } else {
            ok_results(front)
        });
        assert(err_results(results) == if last.1 is Err {
            err_results(front).push(last)
        } else {
            err_results(front)
        });
        if last.1 is Ok {
            assert(ok_results(front).push(last).map_values(
                |r: (usize, Result<String, E>)| result_path(r),
            ) =~= ok_results(front).map_values(|r: (usize, Result<String, E>)| result_path(r)).push(
                result_path(last),
            ));
        }
    } else {
        assert(ok_results(results) =~= Seq::<(usize, Result<String, E>)>::empty());
        assert(err_results(results) =~= Seq::<(usize, Result<String, E>)>::empty());
    }
}

/// The paths of the segments that downloaded, in order, and how many failed.
pub fn tally<E>(results: &Vec<(usize, Result<String, E>)>) -> (r: (Vec<String>, usize))
    ensures
        r.0@.map_values(|s: String| s@) == succeeded(results@),
        r.1 == failed_count(results@),
        r.0@.map_values(|s: String| s@) == ok_results(results@).map_values(
            |r: (usize, Result<String, E>)| result_path(r),
        ),
        r.1 == err_results(results@).len(),
{
    proof {
        lemma_tally_is_ok_and_err_results(results@);
    }
    let mut ok: Vec<String> = Vec::new();
    let mut failed: usize = 0;
    let mut i: usize = 0;
    while i < results.len()
        invariant
            i <= results@.len(),
            ok@.map_values(|s: String| s@) == succeeded(results@.take(i as int)),
            failed == failed_count(results@.take(i as int)),
            failed <= i,
        decreases results@.len() - i,
    {
        let ghost taken = results@.take(i + 1);
        assert(taken.drop_last() =~= results@.take(i as int));
        assert(taken.last() == results@[i as int]);
        let ghost before = ok@.map_values(|s: String| s@);
        match &results[i].1 {
            Ok(p) => {
                ok.push(p.clone());
                assert(ok@.map_values(|s: String| s@) =~= before.push(p@));
            },
            Err(_) => {
                failed = failed + 1;
            },
        }
        i = i + 1;
    }
    assert(results@.take(i as int) =~= results@);
    (ok, failed)
}

} // verus!
