use vstd::prelude::*;

verus! {

/// Activation applied elementwise by a trainable layer.
///
/// The slope of `LeakyReLU` is carried as the bit pattern of its binary64
/// encoding, like every other scalar in this crate.  `Input` marks the input
/// layer, which has no activation of its own: evaluating it is a caller
/// fault.
#[derive(Clone, Copy, Debug, PartialEq, Eq, Structural)]
pub enum ActivationFunction {
    Input,
    Sigmoid,
    ReLU,
    LeakyReLU(u64),
    Tanh,
}

/// The code point of `c`, with ASCII capitals folded to lower case.
pub open spec fn spec_lower_code(c: char) -> int {
    if 65 <= c as int <= 90 {
        c as int + 32
    } else {
        c as int
    }
}

/// `s` and `t` agree letter for letter, up to ASCII case.
pub open spec fn spec_name_matches(s: Seq<char>, t: Seq<char>) -> bool {
    s.len() == t.len() && forall|i: int|
        0 <= i < s.len() ==> spec_lower_code(#[trigger] s[i]) == spec_lower_code(t[i])
}

/// The activation function denoted by a plain (unparameterized) textual
/// name, compared without regard to ASCII case, if any.
pub open spec fn spec_activation_from_name(s: Seq<char>) -> Option<ActivationFunction> {
    if spec_name_matches(s, "input"@) {
        Some(ActivationFunction::Input)
    } else if spec_name_matches(s, "sigmoid"@) {
        Some(ActivationFunction::Sigmoid)
    } else if spec_name_matches(s, "relu"@) {
        Some(ActivationFunction::ReLU)
    } else if spec_name_matches(s, "tanh"@) {
        Some(ActivationFunction::Tanh)
    } else {
        None
    }
}

/// Index of the first `')'` in `s` at or after `from`; the length of `s`
/// when there is none.
pub open spec fn spec_first_close(s: Seq<char>, from: int) -> int
    decreases s.len() - from,
{
    if from < 0 || from >= s.len() {
        s.len() as int
    } else if s[from] == ')' {
        from
    } else {
        spec_first_close(s, from + 1)
    }
}

/// The slope text of a parameterized leaky-ReLU name: for an input of the
/// shape `leakyrelu(<text>)` — exact-case prefix, closing parenthesis last —
/// the characters between the opening parenthesis and the first closing one.
pub open spec fn spec_leaky_relu_slope_text(s: Seq<char>) -> Option<Seq<char>> {
    if s.len() >= 11 && s.take(10) == "leakyrelu("@ && s[s.len() - 1] == ')' {
        Some(s.subrange(10, spec_first_close(s, 10)))
    } else {
        None
    }
}

/// The code point of `c`, with ASCII capitals folded to lower case.
fn lower_code(c: char) -> (result: u32)
    ensures
        result == spec_lower_code(c),
{
    let code = c as u32;
    if 65 <= code && code <= 90 {
        code + 32
    } else {
        code
    }
}

/// Whether `s` and `t` agree letter for letter, up to ASCII case.
fn name_matches(s: &str, t: &str) -> (result: bool)
    ensures
        result == spec_name_matches(s@, t@),
{
    let s_len = s.unicode_len();
    let t_len = t.unicode_len();
    if s_len != t_len {
        return false;
    }
    let mut i: usize = 0;
    while i < s_len
        invariant
            s_len == s@.len(),
            t_len == t@.len(),
            s_len == t_len,
            i <= s_len,
            forall|k: int| 0 <= k < i ==> spec_lower_code(#[trigger] s@[k]) == spec_lower_code(
                t@[k],
            ),
        decreases s_len - i,
    {
        if lower_code(s.get_char(i)) != lower_code(t.get_char(i)) {
            return false;
        }
        i = i + 1;
    }
    true
}

impl ActivationFunction {
    /// Parses a plain activation-function name: `"input"`, `"sigmoid"`,
    /// `"relu"` or `"tanh"`, without regard to ASCII case.  The
    /// parameterized `leakyrelu(<slope>)` form is not a plain name; see
    /// [`leaky_relu_slope_text`](Self::leaky_relu_slope_text).
    pub fn from_name(string: &str) -> (result: Option<ActivationFunction>)
        ensures
            result == spec_activation_from_name(string@),
    {
        if name_matches(string, "input") {
            Some(ActivationFunction::Input)
        } else if name_matches(string, "sigmoid") {
            Some(ActivationFunction::Sigmoid)
        } else if name_matches(string, "relu") {
            Some(ActivationFunction::ReLU)
        } else if name_matches(string, "tanh") {
            Some(ActivationFunction::Tanh)
        } else {
            None
        }
    }

    /// Extracts the slope text of a parameterized leaky-ReLU name: for an
    /// input of the shape `leakyrelu(<text>)` the characters between the
    /// opening parenthesis and the first closing one.  The caller reads the
    /// slope value out of that text.
    pub fn leaky_relu_slope_text(string: &str) -> (result: Option<String>)
        ensures
            match result {
                Some(text) => spec_leaky_relu_slope_text(string@) == Some(text@),
                None => spec_leaky_relu_slope_text(string@) is None,
            },
    {
        let len = string.unicode_len();
        if len < 11 {
            return None;
        }
        let prefix = "leakyrelu(";
        proof {
            reveal_strlit("leakyrelu(");
        }
        let mut i: usize = 0;
        while i < 10
            invariant
                len == string@.len(),
                len >= 11,
                prefix@ == "leakyrelu("@,
                prefix@.len() == 10,
                i <= 10,
                forall|k: int| 0 <= k < i ==> string@[k] == prefix@[k],
            decreases 10 - i,
        {
            if string.get_char(i) != prefix.get_char(i) {
                proof {
                    assert(string@.take(10) != "leakyrelu("@) by {
                        assert(string@.take(10)[i as int] != "leakyrelu("@[i as int]);
                    }
                }
                return None;
            }
            i = i + 1;
        }
        proof {
            assert(string@.take(10) =~= "leakyrelu("@);
        }
        if string.get_char(len - 1) != ')' {
            return None;
        }
        let mut j: usize = 10;
        while j < len - 1 && string.get_char(j) != ')'
            invariant
                len == string@.len(),
                len >= 11,
                10 <= j <= len - 1,
                forall|k: int| 10 <= k < j ==> string@[k] != ')',
            decreases len - j,
        {
            j = j + 1;
        }
        proof {
            lemma_first_close_found(string@, 10, j as int);
        }
        Some(string.substring_char(10, j).to_owned())
    }
}

/// If no `')'` occurs in `s` between `from` and `j`, and `s[j]` is `')'`,
/// then `j` is the first closing parenthesis at or after `from`.
proof fn lemma_first_close_found(s: Seq<char>, from: int, j: int)
    requires
        0 <= from <= j < s.len(),
        forall|k: int| from <= k < j ==> s[k] != ')',
        s[j] == ')',
    ensures
        spec_first_close(s, from) == j,
    decreases j - from,
{
    if from < j {
        lemma_first_close_found(s, from + 1, j);
    }
}

} // verus!
