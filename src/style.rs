//! The style transform that the styled print statement applies to text.
use vstd::prelude::*;
use crate::interpreter::Line;
use crate::text::{chars_of, string_from};

verus! {

/// Each `r` and `l` becomes `w`, each `R` and `L` becomes `W`.
pub open spec fn owo_char(c: char) -> char {
    if c == 'r' || c == 'l' {
        'w'
    } else if c == 'R' || c == 'L' {
        'W'
    } else {
        c
    }
}

/// The styled form of `s`: letters replaced, then ` owo` appended when `suffix` holds.
pub open spec fn owo_text(s: Seq<char>, suffix: bool) -> Seq<char> {
    s.map_values(|c: char| owo_char(c)) + if suffix { " owo"@ } else { Seq::empty() }
}

/// The style transform with the choice of suffix made by the caller.
pub fn owoify_with(input: &str, suffix: bool) -> (r: String)
    ensures
        r@ == owo_text(input@, suffix),
{
    let chars = chars_of(input);
    let mut result: Vec<char> = Vec::new();
    let mut i: usize = 0;
    while i < chars.len()
        invariant
            chars@ == input@,
            i <= chars@.len(),
            result@ == chars@.subrange(0, i as int).map_values(|c: char| owo_char(c)),
        decreases chars@.len() - i,
    {
        let c = chars[i];
        let d = if c == 'r' || c == 'l' {
            'w'
        } else if c == 'R' || c == 'L' {
            'W'
        } else {
            c
        };
        result.push(d);
        i = i + 1;
        assert(result@ =~= chars@.subrange(0, i as int).map_values(|c: char| owo_char(c)));
    }
    assert(chars@.subrange(0, i as int) =~= chars@);
    if suffix {
        let tail = chars_of(" owo");
        let mut j: usize = 0;
        let ghost body = result@;
        while j < tail.len()
            invariant
                tail@ == " owo"@,
                j <= tail@.len(),
                result@ == body + tail@.subrange(0, j as int),
            decreases tail@.len() - j,
        {
            result.push(tail[j]);
            j = j + 1;
            assert(result@ =~= body + tail@.subrange(0, j as int));
        }
        assert(tail@.subrange(0, j as int) =~= tail@);
    } else {
        assert(result@ =~= result@ + Seq::<char>::empty());
    }
    string_from(&result)
}

/// Relies on `rand::random::<bool>()`: a coin flip; nothing is known of its outcome.
#[verifier::external_body]
fn coin_flip() -> bool {
    rand::random::<bool>()
}

/// The style transform: letters replaced, and ` owo` appended at random.
pub fn owoify(input: &str) -> (r: String)
    ensures
        r@ == owo_text(input@, false) || r@ == owo_text(input@, true),
{
    let suffix = coin_flip();
    owoify_with(input, suffix)
}

/// The text written for one line of output: a styled line goes through the
/// style transform.
pub fn render_line(line: &Line) -> (r: String)
    ensures
        !line@.0 ==> r@ == line@.1,
        line@.0 ==> (r@ == owo_text(line@.1, false) || r@ == owo_text(line@.1, true)),
{
    match line {
        Line::Plain(s) => s.clone(),
        Line::Styled(s) => owoify(s.as_str()),
    }
}

} // verus!
