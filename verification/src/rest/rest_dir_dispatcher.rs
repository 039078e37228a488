//! The directory resolver and its path matcher.

use vstd::prelude::*;
use vstd::string::StringExecFns;
use crate::config::CounterfeitConfig;
use crate::default::DefaultRequest;
use crate::path::components;
use crate::path::path_components;
use crate::path::segment_views;
use crate::text::chars_of;
use crate::text::ends_with;
use crate::text::same_chars;
use crate::text::starts_with;
use crate::text::views;

verus! {

/// Whether `segment` is a parameter placeholder: it starts with `prefix` and
/// ends with `postfix`.
pub open spec fn is_parameter(segment: Seq<char>, prefix: Seq<char>, postfix: Seq<char>) -> bool {
    prefix.is_prefix_of(segment) && postfix.is_suffix_of(segment)
}

/// How many of the first `n` segments of `target` equal the segment of
/// `potential` at the same place.
pub open spec fn exact_count(target: Seq<Seq<char>>, potential: Seq<Seq<char>>, n: nat) -> nat
    decreases n,
{
    if n == 0 {
        0
    } else {
        exact_count(target, potential, (n - 1) as nat) + if target[n - 1] == potential[n - 1] {
            1nat
        } else {
            0nat
        }
    }
}

/// How many of the first `n` segments of `potential` differ from the segment
/// of `target` at the same place and are parameter placeholders.
pub open spec fn parameter_count(
    target: Seq<Seq<char>>,
    potential: Seq<Seq<char>>,
    prefix: Seq<char>,
    postfix: Seq<char>,
    n: nat,
) -> nat
    decreases n,
{
    if n == 0 {
        0
    } else {
        parameter_count(target, potential, prefix, postfix, (n - 1) as nat) + if target[n - 1]
            != potential[n - 1] && is_parameter(potential[n - 1], prefix, postfix) {
            1nat
        } else {
            0nat
        }
    }
}

/// The score of `potential` as a match for `target`, both given as segments:
/// none where the segment counts differ or some segment of `potential`
/// neither equals its counterpart nor is a placeholder; else the number of
/// equal segments.
pub open spec fn segments_score(
    target: Seq<Seq<char>>,
    potential: Seq<Seq<char>>,
    prefix: Seq<char>,
    postfix: Seq<char>,
) -> Option<nat> {
    if target.len() != potential.len() {
        None
    } else if exact_count(target, potential, target.len()) + parameter_count(
        target,
        potential,
        prefix,
        postfix,
        target.len(),
    ) == target.len() {
        Some(exact_count(target, potential, target.len()))
    } else {
        None
    }
}

/// The score of the path `potential` as a match for the path `target`.
pub open spec fn path_score(
    target: Seq<char>,
    potential: Seq<char>,
    prefix: Seq<char>,
    postfix: Seq<char>,
) -> Option<nat> {
    segments_score(components(target), components(potential), prefix, postfix)
}

/// Whether every one of the first `n` segments of `potential` equals its
/// counterpart in `target` or is a placeholder.
pub open spec fn all_covered(
    target: Seq<Seq<char>>,
    potential: Seq<Seq<char>>,
    prefix: Seq<char>,
    postfix: Seq<char>,
    n: nat,
) -> bool {
    forall|i: int|
        0 <= i < n ==> target[i] == potential[i] || is_parameter(
            #[trigger] potential[i],
            prefix,
            postfix,
        )
}

/// The two counts never exceed the number of segments looked at, and they
/// add up to it exactly when every segment is covered.
pub proof fn lemma_counts(
    target: Seq<Seq<char>>,
    potential: Seq<Seq<char>>,
    prefix: Seq<char>,
    postfix: Seq<char>,
    n: nat,
)
    ensures
        exact_count(target, potential, n) + parameter_count(target, potential, prefix, postfix, n)
            <= n,
        exact_count(target, potential, n) + parameter_count(target, potential, prefix, postfix, n)
            == n <==> all_covered(target, potential, prefix, postfix, n),
    decreases n,
{
    if n > 0 {
        lemma_counts(target, potential, prefix, postfix, (n - 1) as nat);
        if all_covered(target, potential, prefix, postfix, n) {
            assert(all_covered(target, potential, prefix, postfix, (n - 1) as nat));
            assert(target[n - 1] == potential[n - 1] || is_parameter(
                potential[n - 1],
                prefix,
                postfix,
            ));
        }
    }
}

/// A path matches exactly when it has as many segments as the target and
/// each of them equals its counterpart or is a placeholder.
pub proof fn lemma_score_is_some(
    target: Seq<char>,
    potential: Seq<char>,
    prefix: Seq<char>,
    postfix: Seq<char>,
)
    ensures
        path_score(target, potential, prefix, postfix) is Some <==> components(target).len()
            == components(potential).len() && all_covered(
            components(target),
            components(potential),
            prefix,
            postfix,
            components(target).len(),
        ),
        path_score(target, potential, prefix, postfix) matches Some(score) ==> score
            <= components(target).len(),
{
    lemma_counts(
        components(target),
        components(potential),
        prefix,
        postfix,
        components(target).len(),
    );
}

/// A candidate with another number of segments than the target never
/// matches, whatever placeholders it holds.
pub proof fn lemma_segment_count_gate(
    target: Seq<char>,
    potential: Seq<char>,
    prefix: Seq<char>,
    postfix: Seq<char>,
)
    requires
        components(target).len() != components(potential).len(),
    ensures
        path_score(target, potential, prefix, postfix) is None,
{
}

/// Whether `segment` is a placeholder under the markers `prefix` and `postfix`.
pub fn is_placeholder(segment: &Vec<char>, prefix: &Vec<char>, postfix: &Vec<char>) -> (found: bool)
    ensures
        found == is_parameter(segment@, prefix@, postfix@),
{
    starts_with(segment, prefix) && ends_with(segment, postfix)
}

/// Whether the path segment `component` is a parameter placeholder under `config`.
pub fn is_param(component: &str, config: &CounterfeitConfig) -> (found: bool)
    ensures
        found == is_parameter(component@, config.prefix@, config.postfix@),
{
    let segment = chars_of(component);
    let prefix = chars_of(config.prefix.as_str());
    let postfix = chars_of(config.postfix.as_str());
    is_placeholder(&segment, &prefix, &postfix)
}

/// Scores the segments `potential` as a match for the segments `target`.
pub fn score_segments(
    target: &Vec<Vec<char>>,
    potential: &Vec<Vec<char>>,
    prefix: &Vec<char>,
    postfix: &Vec<char>,
) -> (score: Option<usize>)
    ensures
        match score {
            Some(exact) => Some(exact as nat),
            None => None,
        } == segments_score(
            segment_views(target@),
            segment_views(potential@),
            prefix@,
            postfix@,
        ),
{
    let n: usize = target.len();
    if n != potential.len() {
        return None;
    }
    let ghost t = segment_views(target@);
    let ghost p = segment_views(potential@);
    let mut exact: usize = 0;
    let mut params: usize = 0;
    let mut i: usize = 0;
    while i < n
        invariant
            i <= n,
            n == target.len(),
            n == potential.len(),
            t == segment_views(target@),
            p == segment_views(potential@),
            exact == exact_count(t, p, i as nat),
            params == parameter_count(t, p, prefix@, postfix@, i as nat),
            exact + params <= i,
        decreases n - i,
    {
        if same_chars(&target[i], &potential[i]) {
            exact += 1;
        } else if is_placeholder(&potential[i], prefix, postfix) {
            params += 1;
        }
        i += 1;
    }
    if exact + params == n {
        Some(exact)
    } else {
        None
    }
}

/// A directory that matches a target path, with its score.
#[derive(Debug, Clone)]
pub struct PathMatch {
    pub path: String,
    pub num_exact_matches: usize,
}

impl PathMatch {
    /// Matches the path `potential` against the path `target`: the match
    /// carries `potential` and the number of segments in which the two agree.
    pub fn get_match(target: &str, potential: &str, config: &CounterfeitConfig) -> (found: Option<
        PathMatch,
    >)
        ensures
            match found {
                Some(m) => m.path@ == potential@ && path_score(
                    target@,
                    potential@,
                    config.prefix@,
                    config.postfix@,
                ) == Some(m.num_exact_matches as nat),
                None => path_score(target@, potential@, config.prefix@, config.postfix@) is None,
            },
    {
        let target_segments = path_components(target);
        let potential_segments = path_components(potential);
        let prefix = chars_of(config.prefix.as_str());
        let postfix = chars_of(config.postfix.as_str());
        match score_segments(&target_segments, &potential_segments, &prefix, &postfix) {
            Some(exact) => Some(
                PathMatch { path: potential.to_owned(), num_exact_matches: exact },
            ),
            None => None,
        }
    }
}

/// Whether `candidates[k]` is the match that wins for `target`: it matches,
/// no candidate scores higher, and none after it scores as high.
pub open spec fn is_best(
    target: Seq<char>,
    candidates: Seq<Seq<char>>,
    prefix: Seq<char>,
    postfix: Seq<char>,
    k: int,
) -> bool {
    &&& 0 <= k < candidates.len()
    &&& path_score(target, candidates[k], prefix, postfix) is Some
    &&& forall|j: int|
        0 <= j < candidates.len() && (#[trigger] path_score(
            target,
            candidates[j],
            prefix,
            postfix,
        )) is Some ==> path_score(target, candidates[j], prefix, postfix)->0 <= path_score(
            target,
            candidates[k],
            prefix,
            postfix,
        )->0
    &&& forall|j: int|
        k < j < candidates.len() && (#[trigger] path_score(
            target,
            candidates[j],
            prefix,
            postfix,
        )) is Some ==> path_score(target, candidates[j], prefix, postfix)->0 < path_score(
            target,
            candidates[k],
            prefix,
            postfix,
        )->0
}

/// Whether none of the first `n` candidates matches `target`.
pub open spec fn none_matches(
    target: Seq<char>,
    candidates: Seq<Seq<char>>,
    prefix: Seq<char>,
    postfix: Seq<char>,
    n: int,
) -> bool {
    forall|j: int|
        0 <= j < n ==> (#[trigger] path_score(target, candidates[j], prefix, postfix)) is None
}

/// At most one candidate wins.
pub proof fn lemma_best_is_unique(
    target: Seq<char>,
    candidates: Seq<Seq<char>>,
    prefix: Seq<char>,
    postfix: Seq<char>,
    k1: int,
    k2: int,
)
    requires
        is_best(target, candidates, prefix, postfix, k1),
        is_best(target, candidates, prefix, postfix, k2),
    ensures
        k1 == k2,
{
    let s1 = path_score(target, candidates[k1], prefix, postfix);
    let s2 = path_score(target, candidates[k2], prefix, postfix);
    if k1 < k2 {
        assert(s2->0 < s1->0);
        assert(s1->0 <= s2->0);
    } else if k2 < k1 {
        assert(s1->0 < s2->0);
        assert(s2->0 <= s1->0);
    }
}

/// The place among `directories` of the best match for `target`, if any
/// matches. Of several with the highest score the last one wins.
pub fn best_match(target: &str, directories: &Vec<String>, config: &CounterfeitConfig) -> (best:
    Option<usize>)
    ensures
        match best {
            Some(k) => is_best(
                target@,
                views(directories@),
                config.prefix@,
                config.postfix@,
                k as int,
            ),
            None => none_matches(
                target@,
                views(directories@),
                config.prefix@,
                config.postfix@,
                directories@.len() as int,
            ),
        },
{
    let target_segments = path_components(target);
    let prefix = chars_of(config.prefix.as_str());
    let postfix = chars_of(config.postfix.as_str());
    let ghost candidates = views(directories@);
    let mut best: Option<usize> = None;
    let mut best_score: usize = 0;
    let mut i: usize = 0;
    while i < directories.len()
        invariant
            i <= directories.len(),
            candidates == views(directories@),
            segment_views(target_segments@) == components(target@),
            prefix@ == config.prefix@,
            postfix@ == config.postfix@,
            match best {
                Some(k) => is_best(target@, candidates.take(i as int), prefix@, postfix@, k as int)
                    && best_score == path_score(
                    target@,
                    candidates[k as int],
                    prefix@,
                    postfix@,
                )->0,
                None => none_matches(target@, candidates, prefix@, postfix@, i as int),
            },
        decreases directories.len() - i,
    {
        let segments = path_components(directories[i].as_str());
        let score = score_segments(&target_segments, &segments, &prefix, &postfix);
        proof {
            assert(candidates[i as int] == directories@[i as int]@);
            assert(candidates.take(i + 1)[i as int] == candidates[i as int]);
            assert forall|j: int| 0 <= j < i implies candidates.take(i + 1)[j] == candidates.take(
                i as int,
            )[j] by {}
        }
        match score {
            Some(exact) => {
                let wins: bool = match best {
                    Some(_) => best_score <= exact,
                    None => true,
                };
                if wins {
                    best = Some(i);
                    best_score = exact;
                }
            },
            None => {},
        }
        i += 1;
    }
    assert(candidates.take(directories@.len() as int) =~= candidates);
    best
}

/// The literal path of a request: the request's path appended to the base path.
pub open spec fn literal_path(base: Seq<char>, uri_path: Seq<char>) -> Seq<char> {
    base + uri_path
}

/// Whether `directory` is what a request resolves to, given whether its
/// literal path exists and the directories found under the base path: the
/// literal path if it exists or nothing matches it, else the best match.
pub open spec fn is_resolved(
    literal: Seq<char>,
    literal_exists: bool,
    candidates: Seq<Seq<char>>,
    prefix: Seq<char>,
    postfix: Seq<char>,
    directory: Seq<char>,
) -> bool {
    if literal_exists || none_matches(
        literal,
        candidates,
        prefix,
        postfix,
        candidates.len() as int,
    ) {
        directory == literal
    } else {
        exists|k: int| #[trigger]
            is_best(literal, candidates, prefix, postfix, k) && directory == candidates[k]
    }
}

/// Resolves request paths to directories under a base path.
pub struct RestDirDispatcher {
    config: CounterfeitConfig,
}

impl RestDirDispatcher {
    pub fn new(config: CounterfeitConfig) -> (dispatcher: RestDirDispatcher)
        ensures
            dispatcher.config() == config,
    {
        Self { config }
    }

    pub closed spec fn config(&self) -> CounterfeitConfig {
        self.config
    }

    /// The base path that this dispatcher resolves under.
    pub fn base_path(&self) -> (base: String)
        ensures
            base@ == self.config().base_path@,
    {
        self.config.base_path.clone()
    }

    /// The literal path of `request`: the directory that answers it if it exists.
    pub fn literal_path(&self, request: &DefaultRequest) -> (path: String)
        ensures
            path@ == literal_path(self.config().base_path@, request.uri_path@),
    {
        self.config.base_path.clone().concat(request.uri_path.as_str())
    }

    /// Resolves `request` to a directory. `literal_exists` tells whether the
    /// request's literal path exists; `directories` are the directories found
    /// under the base path, looked at only where it does not.
    pub fn dispatch(
        &self,
        request: &DefaultRequest,
        literal_exists: bool,
        directories: &Vec<String>,
    ) -> (directory: String)
        ensures
            literal_exists ==> directory@ == literal_path(
                self.config().base_path@,
                request.uri_path@,
            ),
            is_resolved(
                literal_path(self.config().base_path@, request.uri_path@),
                literal_exists,
                views(directories@),
                self.config().prefix@,
                self.config().postfix@,
                directory@,
            ),
            components(directory@).len() == components(
                literal_path(self.config().base_path@, request.uri_path@),
            ).len(),
    {
        let path = self.literal_path(request);
        if literal_exists {
            return path;
        }
        match best_match(path.as_str(), directories, &self.config) {
            Some(k) => {
                proof {
                    let candidates = views(directories@);
                    assert(candidates[k as int] == directories@[k as int]@);
                    assert(!none_matches(
                        path@,
                        candidates,
                        self.config().prefix@,
                        self.config().postfix@,
                        candidates.len() as int,
                    ));
                }
                directories[k].clone()
            },
            None => path,
        }
    }
}

} // verus!
