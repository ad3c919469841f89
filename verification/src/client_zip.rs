//! Packaging a client for distribution: choosing the built mod and naming the
//! archive's entries.
use vstd::prelude::*;
use crate::text::{
    chars_of, contains, contains_str, ends_with, extension, file_extension, replace_all,
    replace_chars, starts_with, starts_with_str, string_from_chars,
};

verus! {

/// `a` comes before `b` in code-point order (the order of their UTF-8 bytes).
pub open spec fn text_less(a: Seq<char>, b: Seq<char>) -> bool
    decreases a.len(),
{
    if a.len() == 0 {
        b.len() > 0
    } else if b.len() == 0 {
        false
    } else if a[0] != b[0] {
        (a[0] as u32) < (b[0] as u32)
    } else {
        text_less(a.drop_first(), b.drop_first())
    }
}

/// A file in the mod's build output is the mod: a `.jar` named
/// `chadow-games-client-*` that is not the sources jar.
pub open spec fn is_built_mod(name: Seq<char>) -> bool {
    extension(name) == Some("jar"@) && starts_with(name, "chadow-games-client-"@) && !contains(
        name,
        "sources"@,
    )
}

fn is_built_mod_exec(name: &str) -> (b: bool)
    ensures
        b == is_built_mod(name@),
{
    let n = chars_of(name);
    let ext_ok = match file_extension(&n) {
        Some(e) => crate::text::chars_equal_str(&e, "jar"),
        None => false,
    };
    ext_ok && starts_with_str(&n, "chadow-games-client-") && !contains_str(&n, "sources")
}

fn text_less_exec(a: &Vec<char>, b: &Vec<char>) -> (r: bool)
    ensures
        r == text_less(a@, b@),
{
    let mut i: usize = 0;
    assert(a@.skip(0) == a@ && b@.skip(0) == b@);
    while i < a.len() && i < b.len() && a[i] == b[i]
        invariant
            i <= a.len(),
            i <= b.len(),
            text_less(a@, b@) == text_less(a@.skip(i as int), b@.skip(i as int)),
        decreases a.len() - i,
    {
        proof {
            let x = a@.skip(i as int);
            let y = b@.skip(i as int);
            assert(x[0] == a@[i as int] && y[0] == b@[i as int]);
            assert(x.drop_first() == a@.skip(i + 1));
            assert(y.drop_first() == b@.skip(i + 1));
        }
        i = i + 1;
    }
    proof {
        let x = a@.skip(i as int);
        let y = b@.skip(i as int);
        if i < a.len() {
            assert(x[0] == a@[i as int]);
        }
        if i < b.len() {
            assert(y[0] == b@[i as int]);
        }
    }
    if i == a.len() {
        i < b.len()
    } else if i == b.len() {
        false
    } else {
        (a[i] as u32) < (b[i] as u32)
    }
}

/// The built mod to package: the greatest, in code-point order, of the files in the
/// mod's build output that are the mod; none when there is none.
pub fn pick_mod_jar(names: &Vec<String>) -> (r: Option<usize>)
    ensures
        match r {
            Some(k) => k < names.len() && is_built_mod(names@[k as int]@) && forall|i: int|
                0 <= i < names.len() && is_built_mod(#[trigger] names@[i]@) ==> !text_less(
                    names@[k as int]@,
                    names@[i]@,
                ) || names@[i]@ == names@[k as int]@,
            None => forall|i: int| 0 <= i < names.len() ==> !is_built_mod(#[trigger] names@[i]@),
        },
{
    let mut best: Option<usize> = None;
    let mut i: usize = 0;
    while i < names.len()
        invariant
            i <= names.len(),
            match best {
                Some(k) => k < i && is_built_mod(names@[k as int]@) && forall|j: int|
                    0 <= j < i && is_built_mod(#[trigger] names@[j]@) ==> !text_less(
                        names@[k as int]@,
                        names@[j]@,
                    ) || names@[j]@ == names@[k as int]@,
                None => forall|j: int| 0 <= j < i ==> !is_built_mod(#[trigger] names@[j]@),
            },
        decreases names.len() - i,
    {
        if is_built_mod_exec(names[i].as_str()) {
            match best {
                None => {
                    best = Some(i);
                },
                Some(k) => {
                    let a = chars_of(names[k].as_str());
                    let b = chars_of(names[i].as_str());
                    if text_less_exec(&a, &b) {
                        proof {
                            assert forall|j: int|
                                0 <= j < i + 1 && is_built_mod(#[trigger] names@[j]@) implies !text_less(
                                names@[i as int]@,
                                names@[j]@,
                            ) || names@[j]@ == names@[i as int]@ by {
                                if j < i {
                                    lemma_text_less_total(names@[k as int]@, names@[j]@);
                                    lemma_text_less_trans_not(
                                        names@[j]@,
                                        names@[k as int]@,
                                        names@[i as int]@,
                                    );
                                    lemma_text_less_total(names@[i as int]@, names@[j]@);
                                }
                                if j == i {
                                    lemma_text_less_total(names@[i as int]@, names@[i as int]@);
                                }
                            }
                        }
                        best = Some(i);
                    } else {
                        proof {
                            lemma_text_less_total(names@[k as int]@, names@[i as int]@);
                        }
                    }
                },
            }
        }
        i = i + 1;
    }
    best
}

proof fn lemma_text_less_total(a: Seq<char>, b: Seq<char>)
    ensures
        text_less(a, b) || text_less(b, a) || a == b,
        !(text_less(a, b) && text_less(b, a)),
    decreases a.len(),
{
    if a.len() > 0 && b.len() > 0 && a[0] == b[0] {
        lemma_text_less_total(a.drop_first(), b.drop_first());
        if a.drop_first() == b.drop_first() {
            assert(a =~= b) by {
                assert forall|i: int| 0 <= i < a.len() implies a[i] == b[i] by {
                    if i > 0 {
                        assert(a[i] == a.drop_first()[i - 1]);
                        assert(b[i] == b.drop_first()[i - 1]);
                    }
                }
            }
        }
    } else if a.len() == 0 && b.len() == 0 {
        assert(a =~= b);
    } else if a.len() > 0 && b.len() > 0 {
        lemma_char_code_distinct(a[0], b[0]);
    }
}

proof fn lemma_char_code_distinct(x: char, y: char)
    requires
        x != y,
    ensures
        (x as u32) != (y as u32),
{
    assert((x as int) != (y as int));
}

proof fn lemma_text_less_trans_not(a: Seq<char>, b: Seq<char>, c: Seq<char>)
    requires
        text_less(a, b) || a == b,
        text_less(b, c),
    ensures
        text_less(a, c),
    decreases a.len(),
{
    if a == b {
    } else if a.len() > 0 && b.len() > 0 && c.len() > 0 {
        if a[0] == b[0] && b[0] == c[0] {
            lemma_text_less_trans_not(a.drop_first(), b.drop_first(), c.drop_first());
        }
    }
}

/// The name of an archive entry: the file's path relative to the staging folder, with
/// `\\` turned into `/`.
pub fn zip_entry_name(relative: &str) -> (r: String)
    ensures
        r@ == replace_all(relative@, "\\"@, "/"@),
{
    let rel = chars_of(relative);
    let from = chars_of("\\");
    let to = chars_of("/");
    proof {
        reveal_strlit("\\");
    }
    let r = replace_chars(&rel, &from, &to);
    string_from_chars(&r)
}

} // verus!
