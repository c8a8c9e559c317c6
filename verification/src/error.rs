//! The errors that a caller can provoke.

use vstd::prelude::*;

verus! {

/// An input vector whose length disagrees with the width of the component
/// that received it.
#[derive(Debug, Clone)]
pub struct InputSizeError {
    /// The length that was supplied.
    pub inputted: usize,
    /// The length that the component is configured for.
    pub expected: usize,
    /// The component that detected the mismatch.
    pub chain_depth: String,
}

/// A topology without layers, or one whose list of layer sizes and list of
/// activations differ in length.
#[derive(Debug, Clone)]
pub struct NoLayersError {}

/// Any error of this library.
#[derive(Debug, Clone)]
pub enum NetworkError {
    /// See [`InputSizeError`].
    InputSize(InputSizeError),
    /// See [`NoLayersError`].
    NoLayers(NoLayersError),
}

/// The character of a decimal digit.
pub open spec fn digit(d: nat) -> char {
    if d == 0 {
        '0'
    } else if d == 1 {
        '1'
    } else if d == 2 {
        '2'
    } else if d == 3 {
        '3'
    } else if d == 4 {
        '4'
    } else if d == 5 {
        '5'
    } else if d == 6 {
        '6'
    } else if d == 7 {
        '7'
    } else if d == 8 {
        '8'
    } else {
        '9'
    }
}

/// The decimal numeral of `n`, without leading zeros.
pub open spec fn decimal(n: nat) -> Seq<char>
    decreases n,
{
    if n < 10 {
        seq![digit(n)]
    } else {
        decimal(n / 10).push(digit(n % 10))
    }
}

/// The text of one decimal digit.
fn digit_text(d: usize) -> (r: &'static str)
    requires
        d < 10,
    ensures
        r@ == seq![digit(d as nat)],
{
    proof {
        reveal_strlit("0");
        reveal_strlit("1");
        reveal_strlit("2");
        reveal_strlit("3");
        reveal_strlit("4");
        reveal_strlit("5");
        reveal_strlit("6");
        reveal_strlit("7");
        reveal_strlit("8");
        reveal_strlit("9");
    }
    let r: &'static str = if d == 0 {
        "0"
    } else if d == 1 {
        "1"
    } else if d == 2 {
        "2"
    } else if d == 3 {
        "3"
    } else if d == 4 {
        "4"
    } else if d == 5 {
        "5"
    } else if d == 6 {
        "6"
    } else if d == 7 {
        "7"
    } else if d == 8 {
        "8"
    } else {
        "9"
    };
    assert(r@ =~= seq![digit(d as nat)]);
    r
}

/// Appends the decimal numeral of `n` to `text`.
fn append_decimal(text: &mut String, n: usize)
    ensures
        final(text)@ == old(text)@ + decimal(n as nat),
    decreases n,
{
    if n >= 10 {
        append_decimal(text, n / 10);
    }
    text.append(digit_text(n % 10));
    assert(text@ =~= old(text)@ + decimal(n as nat));
}

impl InputSizeError {
    /// What [`InputSizeError::message`] says.
    pub open spec fn message_text(self) -> Seq<char> {
        "Incorrect size passed to "@ + self.chain_depth@ + ". Expected "@ + decimal(
            self.expected as nat,
        ) + " inputs, got "@ + decimal(self.inputted as nat) + "."@
    }

    /// The error in words: the component, the length it expected and the
    /// length it got.
    pub fn message(&self) -> (r: String)
        ensures
            r@ == self.message_text(),
    {
        let mut text: String = "Incorrect size passed to ".to_owned();
        text.append(self.chain_depth.as_str());
        text.append(". Expected ");
        append_decimal(&mut text, self.expected);
        text.append(" inputs, got ");
        append_decimal(&mut text, self.inputted);
        text.append(".");
        text
    }
}

impl NoLayersError {
    /// What [`NoLayersError::message`] says.
    pub open spec fn message_text(self) -> Seq<char> {
        "No layer sizes given."@
    }

    /// The error in words.
    pub fn message(&self) -> (r: String)
        ensures
            r@ == self.message_text(),
    {
        "No layer sizes given.".to_owned()
    }
}

/// The name by which a unit reports itself in an [`InputSizeError`].
pub open spec fn neuron_name() -> Seq<char> {
    "Neuron"@
}

/// The name by which a layer reports itself in an [`InputSizeError`].
pub open spec fn layer_name() -> Seq<char> {
    "Layer"@
}

/// The name by which a network reports itself in an [`InputSizeError`].
pub open spec fn network_name() -> Seq<char> {
    "NeuralNetwork"@
}

impl NetworkError {
    /// Whether this is the size mismatch that `component` reports for an
    /// input of length `inputted` where `expected` was configured.
    pub open spec fn is_size_mismatch(self, component: Seq<char>, inputted: nat, expected: nat) -> bool {
        match self {
            NetworkError::InputSize(e) => e.inputted == inputted && e.expected == expected
                && e.chain_depth@ == component,
            NetworkError::NoLayers(_) => false,
        }
    }

    /// Whether this is the invalid-topology error.
    pub open spec fn is_no_layers(self) -> bool {
        self is NoLayers
    }

    /// What [`NetworkError::message`] says.
    pub open spec fn message_text(self) -> Seq<char> {
        match self {
            NetworkError::InputSize(e) => e.message_text(),
            NetworkError::NoLayers(e) => e.message_text(),
        }
    }

    /// The error in words.
    pub fn message(&self) -> (r: String)
        ensures
            r@ == self.message_text(),
    {
        match self {
            NetworkError::InputSize(e) => e.message(),
            NetworkError::NoLayers(e) => e.message(),
        }
    }

    /// Whether the error is a size mismatch.
    pub fn is_input_size(&self) -> (r: bool)
        ensures
            r == (self is InputSize),
    {
        match self {
            NetworkError::InputSize(_) => true,
            NetworkError::NoLayers(_) => false,
        }
    }
}

/// The size mismatch that `component` reports.
pub fn size_mismatch(component: &str, inputted: usize, expected: usize) -> (e: NetworkError)
    ensures
        e.is_size_mismatch(component@, inputted as nat, expected as nat),
{
    NetworkError::InputSize(InputSizeError { inputted, expected, chain_depth: component.to_owned() })
}

} // verus!
