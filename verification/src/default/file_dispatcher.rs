//! Selection of the response file for a request's method.
//!
//! A file answers a method when its stem is the method's name in lower case,
//! or starts with that name and an underscore, whatever the case of the stem.

use vstd::prelude::*;
use crate::default::DefaultRequest;
use crate::error::Error;
use crate::error::ErrorModel;
use crate::error::outcome;
use crate::path::canonical;
use crate::path::canonical_path;
use crate::path::file_stem;
use crate::path::path_file_stem;
use crate::rotation::MultiFileIndexMap;
use crate::rotation::normalized;
use crate::rotation::selected;
use crate::rotation::stored_index;
use crate::text::chars_of;
use crate::text::lowercase;
use crate::text::same_chars;
use crate::text::starts_with;
use crate::text::string_from_chars;
use crate::text::to_lowercase;
use crate::text::views;

verus! {

pub const UNDERSCORE: char = '_';

/// Whether a file with the stem `stem` answers a method, given the stem and
/// the method's name in lower case.
pub open spec fn stem_answers(
    stem: Seq<char>,
    lowered_stem: Seq<char>,
    lowered_method: Seq<char>,
) -> bool {
    stem == lowered_method || lowered_method.push(UNDERSCORE).is_prefix_of(lowered_stem)
}

/// Whether the file at `file_path` answers `method`.
pub open spec fn answers(file_path: Seq<char>, method: Seq<char>) -> bool {
    match file_stem(file_path) {
        Some(stem) => stem_answers(stem, lowercase(stem), lowercase(method)),
        None => false,
    }
}

/// The files of `files` that answer `method`, in the order of `files`.
pub open spec fn answering(files: Seq<Seq<char>>, method: Seq<char>) -> Seq<Seq<char>> {
    files.filter(|file: Seq<char>| answers(file, method))
}

/// Whether a file with the stem `stem` answers a method, given the stem and
/// the method's name in lower case.
pub fn stem_matches(
    stem: &Vec<char>,
    lowered_stem: &Vec<char>,
    lowered_method: &Vec<char>,
) -> (found: bool)
    ensures
        found == stem_answers(stem@, lowered_stem@, lowered_method@),
{
    if same_chars(stem, lowered_method) {
        return true;
    }
    let mut opening: Vec<char> = lowered_method.clone();
    opening.push(UNDERSCORE);
    starts_with(lowered_stem, &opening)
}

/// Whether the file at `file_path` answers `method`.
pub fn file_matches(file_path: &str, method: &str) -> (found: bool)
    ensures
        found == answers(file_path@, method@),
{
    match path_file_stem(file_path) {
        Some(stem) => {
            let lowered_method = chars_of(to_lowercase(method).as_str());
            let stem_text = string_from_chars(&stem);
            let lowered_stem = chars_of(to_lowercase(stem_text.as_str()).as_str());
            stem_matches(&stem, &lowered_stem, &lowered_method)
        },
        None => false,
    }
}

/// The files of `files` that answer `method`, in the order of `files`.
pub fn matching_files(files: &Vec<String>, method: &str) -> (found: Vec<String>)
    ensures
        views(found@) == answering(views(files@), method@),
{
    let mut found: Vec<String> = Vec::new();
    let mut i: usize = 0;
    proof {
        reveal(Seq::filter);
        assert(views(files@).take(0) =~= Seq::<Seq<char>>::empty());
        assert(views(found@) =~= Seq::<Seq<char>>::empty());
    }
    while i < files.len()
        invariant
            i <= files.len(),
            views(found@) == answering(views(files@).take(i as int), method@),
        decreases files.len() - i,
    {
        proof {
            reveal(Seq::filter);
            assert(views(files@).take(i + 1).drop_last() =~= views(files@).take(i as int));
            assert(views(files@).take(i + 1).last() == files@[i as int]@);
        }
        if file_matches(files[i].as_str(), method) {
            let file: String = files[i].clone();
            assert(views(found@.push(file)) =~= views(found@).push(file@));
            found.push(file);
        }
        i += 1;
    }
    assert(views(files@).take(files@.len() as int) =~= views(files@));
    found
}

/// Selects the response file for a request among the files of the
/// directory that the request resolved to.
pub struct DefaultFileDispatcher {
    create_missing: bool,
    multifile_indices: MultiFileIndexMap,
}

impl DefaultFileDispatcher {
    pub fn new(create_missing: bool, index_map: MultiFileIndexMap) -> (dispatcher:
        DefaultFileDispatcher)
        ensures
            dispatcher.create_missing() == create_missing,
            dispatcher.index_map() == index_map,
    {
        Self { create_missing, multifile_indices: index_map }
    }

    /// The shared rotation table that selections go through.
    pub closed spec fn index_map(&self) -> MultiFileIndexMap {
        self.multifile_indices
    }

    pub closed spec fn spec_create_missing(&self) -> bool {
        self.create_missing
    }

    /// Whether the surrounding program is asked to make a response file
    /// where none exists. No selection depends on it.
    #[verifier::when_used_as_spec(spec_create_missing)]
    pub fn create_missing(&self) -> (flag: bool)
        ensures
            flag == self.spec_create_missing(),
    {
        self.create_missing
    }

    /// Selects the file that answers `request` in `directory`. `listing` is
    /// the outcome of listing the regular files directly inside `directory`.
    ///
    /// A failed listing is passed on. Where no listed file answers the
    /// method the not-found failure is returned and the rotation table stays
    /// as it is. Else the file whose turn it is in the shared rotation table
    /// is returned and the directory's record moves past it. The table knows
    /// the directory by its canonical spelling, so that all spellings of one
    /// directory share one record.
    pub fn dispatch(
        &self,
        directory: &str,
        request: &DefaultRequest,
        listing: Result<Vec<String>, Error>,
    ) -> (picked: Result<String, Error>)
        ensures
            match listing {
                Ok(files) => exists|table: Map<Seq<char>, usize>|
                    outcome(picked) == #[trigger] selected(
                        table,
                        canonical(directory@),
                        answering(views(files@), request.method@),
                    ),
                Err(e) => outcome(picked) == Err::<Seq<char>, ErrorModel>(e@),
            },
    {
        match listing {
            Ok(files) => {
                let candidates = matching_files(&files, request.method.as_str());
                let key = canonical_path(directory);
                self.multifile_indices.select(key.as_str(), &candidates)
            },
            Err(e) => Err(e),
        }
    }
}

/// Method filtering: whatever the rotation table holds, a file that is
/// selected is one of the listed files and answers the method.
pub proof fn lemma_selected_file_answers(
    table: Map<Seq<char>, usize>,
    directory: Seq<char>,
    files: Seq<Seq<char>>,
    method: Seq<char>,
)
    ensures
        selected(table, directory, answering(files, method)) matches Ok(file) ==> answers(
            file,
            method,
        ) && files.contains(file),
{
    let candidates = answering(files, method);
    if candidates.len() > 0 {
        let index = normalized(stored_index(table, directory), candidates.len()) as int;
        let accepts = |file: Seq<char>| answers(file, method);
        assert(candidates == files.filter(accepts));
        files.lemma_filter_pred(accepts, index);
        assert(files.filter(accepts).contains(candidates[index]));
        files.lemma_filter_contains_rev(accepts, candidates[index]);
    }
}

} // verus!
