//! Choices made before a job runs: where the signaling server and the module's sources are, and
//! what the attribute for distributed functions is given.
use vstd::prelude::*;
use crate::parse::{
    char_seqs, separators_leave_a_part, separators_part_the_text, split, split_parts,
    text_without_separators_is_one_part, trim, trimmed,
};
use crate::text::{copy_str, same_text, string_of};

verus! {

/// Where the signaling server is, unless something else is said.
pub fn signaling_url(said: Option<String>) -> (r: String)
    ensures
        r@ == match said {
            Some(url) => url@,
            None => "ws://localhost:3000"@,
        },
{
    match said {
        Some(url) => url,
        None => copy_str("ws://localhost:3000"),
    }
}

/// A text as a URL, written out in full, or why it is none, as the `url` crate reads it.
pub uninterp spec fn url_of(text: Seq<char>) -> Result<Seq<char>, Seq<char>>;

/// `url::Url::parse` reads a text as an absolute URL or says what is wrong with it, by the text
/// alone; `to_string` writes the URL or the error out. Which texts are URLs, and how they are
/// written, is not stated.
#[verifier::external_body]
pub(crate) fn parse_url(text: &str) -> (r: Result<String, String>)
    ensures
        match (r, url_of(text@)) {
            (Ok(url), Ok(v)) => url@ == v,
            (Err(e), Err(v)) => e@ == v,
            _ => false,
        },
{
    match url::Url::parse(text) {
        Ok(url) => Ok(url.to_string()),
        Err(e) => Err(e.to_string()),
    }
}

/// The URL of the signaling server, unless something else is said; or why what is said is none.
pub fn server_url(said: Option<String>) -> (r: Result<String, String>)
    ensures
        match (
            r,
            url_of(
                match said {
                    Some(url) => url@,
                    None => "ws://localhost:3000"@,
                },
            ),
        ) {
            (Ok(url), Ok(v)) => url@ == v,
            (Err(e), Err(v)) => e@ == v,
            _ => false,
        },
{
    let url = signaling_url(said);
    parse_url(url.as_str())
}

/// A directory that may hold the sources of the module.
#[derive(Debug, Clone)]
pub struct DirCandidate {
    pub path: String,
    /// The last part of the path.
    pub name: Option<String>,
    pub exists: bool,
}

/// The directory is there and has the right name.
pub open spec fn is_examples_dir(c: DirCandidate) -> bool {
    c.exists && (c.name matches Some(name) && name@ == "examples"@)
}

/// The paths with commas between them.
pub open spec fn path_list(candidates: Seq<DirCandidate>) -> Seq<char>
    decreases candidates.len(),
{
    if candidates.len() == 0 {
        Seq::empty()
    } else if candidates.len() == 1 {
        candidates[0].path@
    } else {
        path_list(candidates.drop_last()) + ", "@ + candidates.last().path@
    }
}

fn push_path_list(out: &mut String, candidates: &Vec<DirCandidate>)
    ensures
        final(out)@ == old(out)@ + path_list(candidates@),
{
    let ghost before = out@;
    assert(before + path_list(candidates@.take(0)) =~= before);
    let mut i: usize = 0;
    while i < candidates.len()
        invariant
            i <= candidates@.len(),
            out@ == before + path_list(candidates@.take(i as int)),
        decreases candidates@.len() - i,
    {
        let ghost more = candidates@.take(i + 1);
        assert(more.drop_last() =~= candidates@.take(i as int));
        assert(more.last() == candidates@[i as int]);
        if i > 0 {
            out.append(", ");
        }
        out.append(candidates[i].path.as_str());
        proof {
            if i == 0 {
                assert(path_list(candidates@.take(0)) =~= Seq::<char>::empty());
                assert(more[0] == candidates@[0]);
            }
            assert(out@ =~= before + path_list(more));
        }
        i = i + 1;
    }
    assert(candidates@.take(i as int) =~= candidates@);
}

/// The first of the directories that will do.
pub fn pick_examples_dir(candidates: &Vec<DirCandidate>) -> (r: Result<usize, String>)
    ensures
        match r {
            Ok(k) => k < candidates@.len() && is_examples_dir(candidates@[k as int]) && forall|
                i: int,
            |
                0 <= i < k ==> !is_examples_dir(#[trigger] candidates@[i]),
            Err(e) => (forall|i: int|
                0 <= i < candidates@.len() ==> !is_examples_dir(#[trigger] candidates@[i])) && e@
                == "Unable to locate examples directory. Tried: "@ + path_list(candidates@),
        },
{
    let mut i: usize = 0;
    while i < candidates.len()
        invariant
            i <= candidates@.len(),
            forall|k: int| 0 <= k < i ==> !is_examples_dir(#[trigger] candidates@[k]),
        decreases candidates@.len() - i,
    {
        let named: bool = match &candidates[i].name {
            Some(name) => same_text(name.as_str(), "examples"),
            None => false,
        };
        if named && candidates[i].exists {
            return Ok(i);
        }
        i = i + 1;
    }
    let mut text = copy_str("Unable to locate examples directory. Tried: ");
    push_path_list(&mut text, candidates);
    Err(text)
}

/// The names of the chunker and the reducer that the attribute is given, with a comma between
/// them.
pub fn distribute_args(args: &str) -> (r: Result<(String, String), String>)
    ensures
        if split_parts(args@, ',').len() == 2 {
            r matches Ok((chunker, reducer)) && chunker@ == trimmed(split_parts(args@, ',')[0])
                && reducer@ == trimmed(split_parts(args@, ',')[1])
        } else {
            r matches Err(e) && e@
                == "distribute macro expects exactly 2 arguments: chunker and reducer function names"@
        },
{
    let parts = split(args, ',');
    assert(char_seqs(parts@).len() == parts@.len());
    if parts.len() != 2 {
        return Err(
            copy_str(
                "distribute macro expects exactly 2 arguments: chunker and reducer function names",
            ),
        );
    }
    assert(char_seqs(parts@)[0] == parts@[0]@ && char_seqs(parts@)[1] == parts@[1]@);
    Ok((string_of(&trim(&parts[0])), string_of(&trim(&parts[1]))))
}

/// The name of the distributed version of a function.
pub fn distributed_name(name: &str) -> (r: String)
    ensures
        r@ == name@ + "_run_distributed"@,
{
    let mut r = copy_str(name);
    r.append("_run_distributed");
    r
}

/// Paths are listed in order, with a comma and a space between two.
pub proof fn paths_are_listed_in_order(candidates: Seq<DirCandidate>, c: DirCandidate)
    ensures
        path_list(Seq::<DirCandidate>::empty()).len() == 0,
        path_list(seq![c]) == c.path@,
        candidates.len() > 0 ==> path_list(candidates.push(c)) == path_list(candidates) + seq![
            ',',
            ' ',
        ] + c.path@,
{
    reveal_strlit(", ");
    assert(", "@ =~= seq![',', ' ']);
    assert(candidates.push(c).drop_last() =~= candidates);
}

/// A directory will do just where it is there and is named `examples`, wherever it lies.
pub proof fn directories_go_by_name(c: DirCandidate)
    ensures
        is_examples_dir(c) <==> c.exists && c.name is Some && c.name->Some_0@ == seq![
            'e',
            'x',
            'a',
            'm',
            'p',
            'l',
            'e',
            's',
        ],
{
    reveal_strlit("examples");
    assert("examples"@ =~= seq!['e', 'x', 'a', 'm', 'p', 'l', 'e', 's']);
}

/// Two names with a comma between them are two arguments; three are too many, and one is too few.
pub proof fn one_comma_makes_two_arguments(a: Seq<char>, b: Seq<char>, c: Seq<char>)
    requires
        forall|i: int| 0 <= i < a.len() ==> #[trigger] a[i] != ',',
        forall|i: int| 0 <= i < b.len() ==> #[trigger] b[i] != ',',
    ensures
        split_parts(a, ',').len() == 1,
        split_parts(a + seq![','] + b, ',') == seq![a, b],
        split_parts(a + seq![','] + (b + seq![','] + c), ',').len() >= 3,
{
    separators_part_the_text(a, ',', b);
    separators_part_the_text(a, ',', b + seq![','] + c);
    separators_part_the_text(b, ',', c);
    text_without_separators_is_one_part(a, ',');
    text_without_separators_is_one_part(b, ',');
    assert(split_parts(a + seq![','] + b, ',') =~= seq![a, b]);
    separators_leave_a_part(c, ',');
}

} // verus!
