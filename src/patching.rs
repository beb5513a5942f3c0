//! Patch application: each distinct file named by the rules is read once, all
//! its rules are applied in list order to one in-memory copy, and that copy is
//! written back once.
use vstd::prelude::*;
use crate::text::occurs_in;

verus! {

/// A literal find/replace rule scoped to one file.
pub struct PatchRule {
    pub target_file: String,
    pub text_to_find: String,
    pub replacement_text: String,
}

/// `s` with every occurrence of `from` replaced by `to`, occurrences taken from
/// the left without overlap. An empty `from` occurs before every character and
/// at the end.
pub open spec fn replace_all(s: Seq<char>, from: Seq<char>, to: Seq<char>) -> Seq<char>
    decreases s.len(),
{
    if from.len() == 0 {
        if s.len() == 0 {
            to
        } else {
            to + seq![s[0]] + replace_all(s.drop_first(), from, to)
        }
    } else if s.len() < from.len() {
        s
    } else if s.subrange(0, from.len() as int) == from {
        to + replace_all(s.subrange(from.len() as int, s.len() as int), from, to)
    } else {
        seq![s[0]] + replace_all(s.drop_first(), from, to)
    }
}

/// Relies on `str::replace` with a `&str` pattern: every non-overlapping match,
/// found from the left, is replaced.
#[verifier::external_body]
fn replace_text(s: &str, from: &str, to: &str) -> (r: String)
    ensures
        r@ == replace_all(s@, from@, to@),
{
    s.replace(from, to)
}

/// The files the rules name, each once, in the order of first mention.
pub open spec fn distinct_files(rules: Seq<PatchRule>) -> Seq<Seq<char>>
    decreases rules.len(),
{
    if rules.len() == 0 {
        seq![]
    } else {
        let earlier = distinct_files(rules.drop_last());
        if earlier.contains(rules.last().target_file@) {
            earlier
        } else {
            earlier.push(rules.last().target_file@)
        }
    }
}

/// The contents of `file`, first `original`, after the rules that name it were
/// applied in list order.
pub open spec fn patched(rules: Seq<PatchRule>, file: Seq<char>, original: Seq<char>) -> Seq<char>
    decreases rules.len(),
{
    if rules.len() == 0 {
        original
    } else {
        let before = patched(rules.drop_last(), file, original);
        let r = rules.last();
        if r.target_file@ == file {
            replace_all(before, r.text_to_find@, r.replacement_text@)
        } else {
            before
        }
    }
}

pub open spec fn views(v: Seq<String>) -> Seq<Seq<char>> {
    v.map_values(|s: String| s@)
}

/// Each file the rules name is listed once, and only such files are listed.
pub proof fn lemma_each_file_once(rules: Seq<PatchRule>)
    ensures
        distinct_files(rules).no_duplicates(),
        forall|p: Seq<char>|
            distinct_files(rules).contains(p) <==> exists|i: int|
                0 <= i < rules.len() && (#[trigger] rules[i]).target_file@ == p,
    decreases rules.len(),
{
    if rules.len() > 0 {
        let earlier = rules.drop_last();
        lemma_each_file_once(earlier);
        assert forall|p: Seq<char>|
            distinct_files(rules).contains(p) <==> exists|i: int|
                0 <= i < rules.len() && (#[trigger] rules[i]).target_file@ == p by {
            let d = distinct_files(earlier);
            let last = rules.last().target_file@;
            let n = rules.len() - 1;
            assert(rules[n] == rules.last());
            if distinct_files(rules).contains(p) {
                if d.contains(p) {
                    let i = choose|i: int| 0 <= i < earlier.len() && (#[trigger] earlier[i]).target_file@ == p;
                    assert(rules[i] == earlier[i]);
                } else {
                    let j = choose|j: int| 0 <= j < d.push(last).len() && d.push(last)[j] == p;
                    assert(j == d.len());
                    assert(rules[n].target_file@ == p);
                }
            }
            if exists|i: int| 0 <= i < rules.len() && (#[trigger] rules[i]).target_file@ == p {
                let i = choose|i: int| 0 <= i < rules.len() && (#[trigger] rules[i]).target_file@ == p;
                if i < n {
                    assert(earlier[i] == rules[i]);
                    assert(d.contains(p));
                    if !d.contains(last) {
                        let j = choose|j: int| 0 <= j < d.len() && d[j] == p;
                        assert(d.push(last)[j] == p);
                    }
                } else {
                    if !d.contains(last) {
                        assert(d.push(last)[d.len() as int] == p);
                    }
                }
            }
        }
    }
}

/// The position of `p` in `paths`, if it is there.
fn position_of(paths: &Vec<String>, p: &String) -> (r: Option<usize>)
    ensures
        match r {
            Some(k) => k < paths@.len() && paths@[k as int]@ == p@,
            None => !views(paths@).contains(p@),
        },
{
    let mut k: usize = 0;
    while k < paths.len()
        invariant
            k <= paths@.len(),
            forall|j: int| 0 <= j < k ==> paths@[j]@ != p@,
        decreases paths@.len() - k,
    {
        if paths[k] == *p {
            return Some(k);
        }
        k = k + 1;
    }
    assert(!views(paths@).contains(p@)) by {
        if views(paths@).contains(p@) {
            let j = choose|j: int| 0 <= j < views(paths@).len() && views(paths@)[j] == p@;
            assert(paths@[j]@ == p@);
        }
    }
    None
}

/// The files to read before the rules can be applied: each file a rule names,
/// once, in the order of first mention.
pub fn files_to_read(rules: &Vec<PatchRule>) -> (r: Vec<String>)
    ensures
        views(r@) == distinct_files(rules@),
{
    let mut files: Vec<String> = Vec::new();
    let mut i: usize = 0;
    while i < rules.len()
        invariant
            i <= rules@.len(),
            views(files@) == distinct_files(rules@.subrange(0, i as int)),
        decreases rules@.len() - i,
    {
        let ghost seen = rules@.subrange(0, i as int);
        assert(rules@.subrange(0, i + 1).drop_last() == seen);
        let path = &rules[i].target_file;
        match position_of(&files, path) {
            Some(k) => {
                assert(views(files@)[k as int] == path@);
            },
            None => {
                files.push(path.clone());
                assert(views(files@) =~= views(files@.drop_last()).push(path@));
            },
        }
        i = i + 1;
    }
    assert(rules@.subrange(0, rules@.len() as int) == rules@);
    files
}

/// Applies the rules in list order to the contents of the files they name.
/// `files` lists those files as [`files_to_read`] gives them and `contents`
/// holds what each of them held; the result holds, at the same positions,
/// what each is to be written back with.
pub fn apply_rules(rules: &Vec<PatchRule>, files: &Vec<String>, contents: Vec<String>) -> (r: Vec<String>)
    requires
        views(files@) == distinct_files(rules@),
        contents@.len() == files@.len(),
    ensures
        r@.len() == files@.len(),
        forall|k: int|
            0 <= k < files@.len() ==> (#[trigger] r@[k])@ == patched(rules@, files@[k]@, contents@[k]@),
{
    proof {
        lemma_each_file_once(rules@);
    }
    let ghost original = contents@;
    let mut current = contents;
    let mut i: usize = 0;
    while i < rules.len()
        invariant
            i <= rules@.len(),
            views(files@) == distinct_files(rules@),
            distinct_files(rules@).no_duplicates(),
            forall|p: Seq<char>|
                distinct_files(rules@).contains(p) <==> exists|j: int|
                    0 <= j < rules@.len() && (#[trigger] rules@[j]).target_file@ == p,
            current@.len() == files@.len() == original.len(),
            forall|k: int|
                0 <= k < files@.len() ==> (#[trigger] current@[k])@ == patched(
                    rules@.subrange(0, i as int),
                    files@[k]@,
                    original[k]@,
                ),
        decreases rules@.len() - i,
    {
        let ghost done = rules@.subrange(0, i as int);
        let ghost next = rules@.subrange(0, i + 1);
        assert(next.drop_last() == done);
        assert(next.last() == rules@[i as int]);
        let rule = &rules[i];
        assert(distinct_files(rules@).contains(rule.target_file@));
        match position_of(files, &rule.target_file) {
            Some(k) => {
                let updated = replace_text(
                    current[k].as_str(),
                    rule.text_to_find.as_str(),
                    rule.replacement_text.as_str(),
                );
                current.set(k, updated);
                assert forall|m: int| 0 <= m < files@.len() implies (#[trigger] current@[m])@
                    == patched(next, files@[m]@, original[m]@) by {
                    if m != k {
                        assert(views(files@)[m] == files@[m]@);
                        assert(views(files@)[k as int] == files@[k as int]@);
                    }
                }
            },
            None => {
                assert(views(files@).contains(rule.target_file@));
            },
        }
        i = i + 1;
    }
    assert(rules@.subrange(0, rules@.len() as int) == rules@);
    current
}

/// Replacing a non-empty text that does not occur changes nothing.
pub proof fn lemma_replace_absent(s: Seq<char>, from: Seq<char>, to: Seq<char>)
    requires
        from.len() > 0,
        !occurs_in(s, from),
    ensures
        replace_all(s, from, to) == s,
    decreases s.len(),
{
    if s.len() >= from.len() {
        assert(!crate::text::occurs_at(s, from, 0));
        let rest = s.drop_first();
        assert(!occurs_in(rest, from)) by {
            if occurs_in(rest, from) {
                let i = choose|i: int| crate::text::occurs_at(rest, from, i);
                assert(s.subrange(i + 1, i + 1 + from.len()) =~= rest.subrange(i, i + from.len()));
                assert(crate::text::occurs_at(s, from, i + 1));
            }
        }
        lemma_replace_absent(rest, from, to);
        assert(seq![s[0]] + rest =~= s);
    }
}

/// Applying a rule set a second time to a file leaves it as the first
/// application left it, when each rule naming the file looks for a non-empty
/// text that the first application left absent.
pub proof fn lemma_reapply_unchanged(rules: Seq<PatchRule>, file: Seq<char>, original: Seq<char>)
    requires
        forall|i: int|
            0 <= i < rules.len() && (#[trigger] rules[i]).target_file@ == file ==> rules[i].text_to_find@.len()
                > 0 && !occurs_in(patched(rules, file, original), rules[i].text_to_find@),
    ensures
        patched(rules, file, patched(rules, file, original)) == patched(rules, file, original),
{
    lemma_prefix_keeps(rules, file, patched(rules, file, original), rules.len() as int);
    assert(rules.subrange(0, rules.len() as int) =~= rules);
}

proof fn lemma_prefix_keeps(rules: Seq<PatchRule>, file: Seq<char>, once: Seq<char>, m: int)
    requires
        0 <= m <= rules.len(),
        forall|i: int|
            0 <= i < rules.len() && (#[trigger] rules[i]).target_file@ == file ==> rules[i].text_to_find@.len()
                > 0 && !occurs_in(once, rules[i].text_to_find@),
    ensures
        patched(rules.subrange(0, m), file, once) == once,
    decreases m,
{
    if m > 0 {
        lemma_prefix_keeps(rules, file, once, m - 1);
        let next = rules.subrange(0, m);
        assert(next.drop_last() =~= rules.subrange(0, m - 1));
        assert(next.last() == rules[m - 1]);
        if rules[m - 1].target_file@ == file {
            lemma_replace_absent(once, rules[m - 1].text_to_find@, rules[m - 1].replacement_text@);
        }
    }
}

/// Two rules on one file act in list order: the second looks for its text in
/// what the first left, not in the original contents.
pub proof fn lemma_rules_apply_in_order(first: PatchRule, second: PatchRule, original: Seq<char>)
    requires
        first.target_file@ == second.target_file@,
    ensures
        patched(seq![first, second], first.target_file@, original) == replace_all(
            replace_all(original, first.text_to_find@, first.replacement_text@),
            second.text_to_find@,
            second.replacement_text@,
        ),
{
    let rules = seq![first, second];
    assert(rules.drop_last() =~= seq![first]);
    assert(seq![first].drop_last() =~= Seq::<PatchRule>::empty());
    let file = first.target_file@;
    let one = patched(seq![first], file, original);
    assert(patched(Seq::<PatchRule>::empty(), file, original) == original);
    assert(seq![first].last() == first);
    assert(one == replace_all(original, first.text_to_find@, first.replacement_text@));
    assert(rules.last() == second);
    assert(patched(rules, file, original) == replace_all(one, second.text_to_find@, second.replacement_text@));
}

} // verus!
