//! Looks for injections in prompts of jobs.

use crate::text::{copy_str, has_text, str_holds};
use vstd::prelude::*;

verus! {

/// The lower-case form of a text, as `str::to_lowercase` gives it.
pub uninterp spec fn lowercase_text(s: Seq<char>) -> Seq<char>;

/// Calls `str::to_lowercase`, which follows the Unicode derived core property
/// `Lowercase`.
#[verifier::external_body]
pub(crate) fn to_lowercase(s: &str) -> (r: String)
    ensures
        r@ == lowercase_text(s@),
{
    s.to_lowercase()
}

/// What a prompt says that takes over the agent's role.
pub open spec fn role_hijack_patterns() -> Seq<Seq<char>> {
    seq![
        "ignore previous"@,
        "ignore all instructions"@,
        "you are now"@,
        "system prompt"@,
        "忽略之前"@,
        "忽略所有"@,
        "你现在是"@,
        "你的新角色"@,
        "disregard your"@,
        "override your instructions"@,
        "forget your instructions"@,
        "new instructions"@,
    ]
}

/// What a prompt says that carries data off.
pub open spec fn exfiltration_patterns() -> Seq<Seq<char>> {
    seq![
        "send to http"@,
        "post to http"@,
        "curl -x post"@,
        "wget --post"@,
        "发送到http"@,
        "上传到http"@,
    ]
}

/// The first of the patterns that a text holds.
pub open spec fn first_held(text: Seq<char>, patterns: Seq<Seq<char>>) -> Option<Seq<char>>
    decreases patterns.len(),
{
    if patterns.len() == 0 {
        None
    } else if has_text(text, patterns[0]) {
        Some(patterns[0])
    } else {
        first_held(text, patterns.skip(1))
    }
}

/// The verdict on a prompt in lower case.
pub open spec fn scan_verdict(lower: Seq<char>) -> Result<(), Seq<char>> {
    match first_held(lower, role_hijack_patterns()) {
        Some(p) => Err("prompt injection detected (role hijack): '"@ + p + "'"@),
        None => match first_held(lower, exfiltration_patterns()) {
            Some(p) => Err("prompt injection detected (exfiltration): '"@ + p + "'"@),
            None => Ok(()),
        },
    }
}

/// The views of a row of string slices.
pub open spec fn str_views(v: Seq<&str>) -> Seq<Seq<char>> {
    v.map_values(|s: &str| s@)
}

fn find_held(text: &str, patterns: &Vec<&'static str>) -> (r: Option<&'static str>)
    ensures
        match r {
            Some(p) => first_held(text@, str_views(patterns@)) == Some(p@),
            None => first_held(text@, str_views(patterns@)) is None,
        },
{
    let ghost ps = str_views(patterns@);
    let mut i: usize = 0;
    assert(ps.skip(0) =~= ps);
    while i < patterns.len()
        invariant
            i <= patterns@.len(),
            ps == str_views(patterns@),
            first_held(text@, ps.skip(i as int)) == first_held(text@, ps),
        decreases patterns@.len() - i,
    {
        assert(ps.skip(i as int)[0] == patterns@[i as int]@);
        assert(ps.skip(i as int).skip(1) =~= ps.skip(i as int + 1));
        if str_holds(text, patterns[i]) {
            return Some(patterns[i]);
        }
        i += 1;
    }
    assert(ps.skip(ps.len() as int) =~= Seq::<Seq<char>>::empty());
    None
}

/// The view of a verdict.
pub open spec fn verdict_view(r: Result<(), String>) -> Result<(), Seq<char>> {
    match r {
        Ok(()) => Ok(()),
        Err(e) => Err(e@),
    }
}

/// Looks for injections in a prompt that is in lower case.
pub fn scan_lowered(lower: &str) -> (r: Result<(), String>)
    ensures
        verdict_view(r) == scan_verdict(lower@),
{
    let role_hijack: Vec<&'static str> = vec![
        "ignore previous",
        "ignore all instructions",
        "you are now",
        "system prompt",
        "忽略之前",
        "忽略所有",
        "你现在是",
        "你的新角色",
        "disregard your",
        "override your instructions",
        "forget your instructions",
        "new instructions",
    ];
    assert(str_views(role_hijack@) =~= role_hijack_patterns());
    match find_held(lower, &role_hijack) {
        Some(p) => {
            let mut m = copy_str("prompt injection detected (role hijack): '");
            m.append(p);
            m.append("'");
            return Err(m);
        },
        None => {},
    }
    let exfiltration: Vec<&'static str> = vec![
        "send to http",
        "post to http",
        "curl -x post",
        "wget --post",
        "发送到http",
        "上传到http",
    ];
    assert(str_views(exfiltration@) =~= exfiltration_patterns());
    match find_held(lower, &exfiltration) {
        Some(p) => {
            let mut m = copy_str("prompt injection detected (exfiltration): '");
            m.append(p);
            m.append("'");
            Err(m)
        },
        None => Ok(()),
    }
}

/// Looks for common injections in a prompt, whatever its case. An error names
/// the pattern that was found.
pub fn scan_prompt_injection(prompt: &str) -> (r: Result<(), String>)
    ensures
        verdict_view(r) == scan_verdict(lowercase_text(prompt@)),
{
    let lower = to_lowercase(prompt);
    scan_lowered(lower.as_str())
}

proof fn lemma_first_held(text: Seq<char>, patterns: Seq<Seq<char>>)
    ensures
        first_held(text, patterns) is None <==> forall|i: int|
            0 <= i < patterns.len() ==> !has_text(text, #[trigger] patterns[i]),
    decreases patterns.len(),
{
    if patterns.len() > 0 {
        lemma_first_held(text, patterns.skip(1));
        assert(forall|i: int| 0 < i < patterns.len() ==> patterns[i] == patterns.skip(1)[i - 1]);
        if !has_text(text, patterns[0]) && first_held(text, patterns) is None {
            assert forall|i: int| 0 <= i < patterns.len() implies !has_text(
                text,
                #[trigger] patterns[i],
            ) by {
                if i > 0 {
                    assert(patterns.skip(1)[i - 1] == patterns[i]);
                }
            }
        }
    }
}

/// A prompt passes exactly when its lower-case form holds none of the patterns.
pub proof fn law_passes_iff_no_pattern(lower: Seq<char>)
    ensures
        scan_verdict(lower) is Ok <==> (forall|i: int|
            0 <= i < role_hijack_patterns().len() ==> !has_text(
                lower,
                #[trigger] role_hijack_patterns()[i],
            )) && (forall|i: int|
            0 <= i < exfiltration_patterns().len() ==> !has_text(
                lower,
                #[trigger] exfiltration_patterns()[i],
            )),
{
    lemma_first_held(lower, role_hijack_patterns());
    lemma_first_held(lower, exfiltration_patterns());
}

} // verus!
