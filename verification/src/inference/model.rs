//! Models, their settings and their catalog prices.
use crate::canonical::{bool_text, push_bool, push_quoted, quoted};
use crate::inference::cost::UsdCost;
use crate::inference::failure::FailureKind;
use crate::text::same_text;
use std::str::FromStr;
use vstd::prelude::*;

verus! {

/// A model.
#[derive(Clone, Copy, Debug, Default, PartialEq, Eq, PartialOrd, Ord, Hash, Structural)]
pub enum Model {
    #[default]
    Sol,
    Terra,
    Luna,
    Astra,
    Glm,
    Spark,
}

impl Model {
    pub open spec fn spec_name(self) -> Seq<char> {
        match self {
            Model::Sol => "sol"@,
            Model::Terra => "terra"@,
            Model::Luna => "luna"@,
            Model::Astra => "astra"@,
            Model::Glm => "glm"@,
            Model::Spark => "spark"@,
        }
    }

    pub fn name(self) -> (r: &'static str)
        ensures
            r@ == self.spec_name(),
    {
        match self {
            Model::Sol => "sol",
            Model::Terra => "terra",
            Model::Luna => "luna",
            Model::Astra => "astra",
            Model::Glm => "glm",
            Model::Spark => "spark",
        }
    }
}

impl Model {
    pub open spec fn wire_name(self) -> Seq<char> {
        match self {
            Model::Sol => "gpt-5.6-sol"@,
            Model::Terra => "gpt-5.6-terra"@,
            Model::Luna => "gpt-5.6-luna"@,
            Model::Astra => "gpt-6-astra"@,
            Model::Glm => "glm-5.3"@,
            Model::Spark => "gpt-5.3-codex-spark"@,
        }
    }

    pub fn as_str(self) -> (r: &'static str)
        ensures
            r@ == self.wire_name(),
    {
        match self {
            Model::Sol => "gpt-5.6-sol",
            Model::Terra => "gpt-5.6-terra",
            Model::Luna => "gpt-5.6-luna",
            Model::Astra => "gpt-6-astra",
            Model::Glm => "glm-5.3",
            Model::Spark => "gpt-5.3-codex-spark",
        }
    }
}

/// The prices of a model for one input, cached input and output token, in units of the
/// last decimal place of a cost.
pub struct Rates {
    pub input: u128,
    pub cached: u128,
    pub output: u128,
}

/// The catalog prices of a model.
pub open spec fn rates_of(model: Model) -> Option<Rates> {
    match model {
        Model::Sol => Some(
            Rates {
                input: 4_000_000_000_000,
                cached: 400_000_000_000,
                output: 20_000_000_000_000,
            },
        ),
        Model::Terra => Some(
            Rates {
                input: 2_000_000_000_000,
                cached: 200_000_000_000,
                output: 12_000_000_000_000,
            },
        ),
        Model::Luna => Some(
            Rates { input: 200_000_000_000, cached: 20_000_000_000, output: 1_200_000_000_000 },
        ),
        Model::Astra => Some(
            Rates {
                input: 10_000_000_000_000,
                cached: 1_000_000_000_000,
                output: 50_000_000_000_000,
            },
        ),
        Model::Glm => None,
        Model::Spark => None,
    }
}

/// What usage costs by the catalog, if the model has prices and the usage is complete and
/// consistent.
pub open spec fn catalog_price(model: Model, usage: Usage) -> Option<int> {
    match (
        usage.input_tokens,
        usage.cached_input_tokens,
        usage.output_tokens,
        usage.total_tokens,
        rates_of(model),
    ) {
        (Some(input), Some(cached), Some(output), Some(total), Some(rates)) => if cached > input
            || input + output != total {
            None
        } else {
            Some((input - cached) * rates.input + cached * rates.cached + output * rates.output)
        },
        _ => None,
    }
}

/// What a response used.
#[derive(Clone, Copy, Debug, Default, PartialEq, Eq, Structural)]
pub struct Usage {
    pub input_tokens: Option<u64>,
    pub output_tokens: Option<u64>,
    pub total_tokens: Option<u64>,
    pub cached_input_tokens: Option<u64>,
    pub reasoning_tokens: Option<u64>,
    pub cost_usd: Option<UsdCost>,
}

impl Usage {
    pub fn recorded(&self) -> (r: bool)
        ensures
            r == (self.input_tokens is Some && self.output_tokens is Some && self.total_tokens
                is Some),
    {
        self.input_tokens.is_some() && self.output_tokens.is_some() && self.total_tokens.is_some()
    }
}

fn priced(tokens: u64, rate: u128) -> (r: u128)
    requires
        rate <= 50_000_000_000_000,
    ensures
        r == tokens * rate,
        r <= 18446744073709551615 * 50_000_000_000_000,
{
    assert(tokens * rate <= 18446744073709551615 * 50_000_000_000_000) by (nonlinear_arith)
        requires
            tokens <= 18446744073709551615,
            rate <= 50_000_000_000_000,
    ;
    tokens as u128 * rate
}

impl Model {
    fn rates(self) -> (r: Option<Rates>)
        ensures
            r == rates_of(self),
            r matches Some(rates) ==> rates.input <= 50_000_000_000_000 && rates.cached
                <= 50_000_000_000_000 && rates.output <= 50_000_000_000_000,
    {
        match self {
            Model::Sol => Some(
                Rates {
                    input: 4_000_000_000_000,
                    cached: 400_000_000_000,
                    output: 20_000_000_000_000,
                },
            ),
            Model::Terra => Some(
                Rates {
                    input: 2_000_000_000_000,
                    cached: 200_000_000_000,
                    output: 12_000_000_000_000,
                },
            ),
            Model::Luna => Some(
                Rates {
                    input: 200_000_000_000,
                    cached: 20_000_000_000,
                    output: 1_200_000_000_000,
                },
            ),
            Model::Astra => Some(
                Rates {
                    input: 10_000_000_000_000,
                    cached: 1_000_000_000_000,
                    output: 50_000_000_000_000,
                },
            ),
            Model::Glm => None,
            Model::Spark => None,
        }
    }

    /// What usage costs by the catalog.
    pub fn catalog_cost(self, usage: &Usage) -> (r: Option<UsdCost>)
        ensures
            match r {
                Some(cost) => catalog_price(self, *usage) == Some(cost.0 as int),
                None => catalog_price(self, *usage) is None,
            },
    {
        let input = match usage.input_tokens {
            Some(input) => input,
            None => return None,
        };
        let cached = match usage.cached_input_tokens {
            Some(cached) => cached,
            None => return None,
        };
        let output = match usage.output_tokens {
            Some(output) => output,
            None => return None,
        };
        let total = match usage.total_tokens {
            Some(total) => total,
            None => return None,
        };
        let rates = match self.rates() {
            Some(rates) => rates,
            None => return None,
        };
        if cached > input {
            return None;
        }
        match input.checked_add(output) {
            Some(sum) => {
                if sum != total {
                    return None;
                }
            },
            None => return None,
        }
        Some(
            UsdCost(
                priced(input - cached, rates.input) + priced(cached, rates.cached) + priced(
                    output,
                    rates.output,
                ),
            ),
        )
    }

    /// The model's name on the wire.
    pub fn to_string(&self) -> (r: String)
        ensures
            r@ == self.wire_name(),
    {
        self.as_str().to_owned()
    }

    /// The model with a short name or a wire name.
    pub fn parse(value: &str) -> (r: Result<Self, FailureKind>)
        ensures
            match r {
                Ok(model) => value@ == model.spec_name() || value@ == model.wire_name(),
                Err(error) => error == FailureKind::InvalidRequest && forall|model: Model|
                    value@ != #[trigger] model.spec_name() && value@ != model.wire_name(),
            },
    {
        if same_text(value, "sol") || same_text(value, "gpt-5.6-sol") {
            Ok(Model::Sol)
        } else if same_text(value, "terra") || same_text(value, "gpt-5.6-terra") {
            Ok(Model::Terra)
        } else if same_text(value, "luna") || same_text(value, "gpt-5.6-luna") {
            Ok(Model::Luna)
        } else if same_text(value, "astra") || same_text(value, "gpt-6-astra") {
            Ok(Model::Astra)
        } else if same_text(value, "glm") || same_text(value, "glm-5.3") {
            Ok(Model::Glm)
        } else if same_text(value, "spark") || same_text(value, "gpt-5.3-codex-spark") {
            Ok(Model::Spark)
        } else {
            assert forall|model: Model|
                value@ != #[trigger] model.spec_name() && value@ != model.wire_name() by {
                match model {
                    Model::Sol => {},
                    Model::Terra => {},
                    Model::Luna => {},
                    Model::Astra => {},
                    Model::Glm => {},
                    Model::Spark => {},
                }
            }
            Err(FailureKind::InvalidRequest)
        }
    }
}

impl FromStr for Model {
    type Err = FailureKind;

    fn from_str(value: &str) -> Result<Self, Self::Err> {
        Model::parse(value)
    }
}

/// No two models share a name, so that each is read back from both of its names.
pub proof fn law_models_are_read_back(a: Model, b: Model)
    requires
        a.spec_name() == b.spec_name() || a.wire_name() == b.wire_name() || a.spec_name()
            == b.wire_name(),
    ensures
        a == b,
{
    reveal_strlit("sol");
    reveal_strlit("gpt-5.6-sol");
    reveal_strlit("terra");
    reveal_strlit("gpt-5.6-terra");
    reveal_strlit("luna");
    reveal_strlit("gpt-5.6-luna");
    reveal_strlit("astra");
    reveal_strlit("gpt-6-astra");
    reveal_strlit("glm");
    reveal_strlit("glm-5.3");
    reveal_strlit("spark");
    reveal_strlit("gpt-5.3-codex-spark");
    assert("sol"@.len() == 3 && "gpt-5.6-sol"@.len() == 11);
    assert("terra"@.len() == 5 && "gpt-5.6-terra"@.len() == 13);
    assert("luna"@.len() == 4 && "gpt-5.6-luna"@.len() == 12);
    assert("astra"@.len() == 5 && "gpt-6-astra"@.len() == 11);
    assert("glm"@.len() == 3 && "glm-5.3"@.len() == 7);
    assert("spark"@.len() == 5 && "gpt-5.3-codex-spark"@.len() == 19);
    assert("sol"@[0] != "glm"@[0]);
    assert("gpt-5.6-sol"@[4] != "gpt-6-astra"@[4]);
    assert("terra"@[0] != "astra"@[0]);
    assert("terra"@[0] != "spark"@[0]);
    assert("astra"@[0] != "spark"@[0]);
}

/// How much a model thinks.
#[derive(Clone, Copy, Debug, Default, PartialEq, Eq, Structural)]
pub enum Thinking {
    Low,
    #[default]
    Medium,
    High,
    Xhigh,
    Max,
}

impl Thinking {
    pub open spec fn spec_name(self) -> Seq<char> {
        match self {
            Thinking::Low => "low"@,
            Thinking::Medium => "medium"@,
            Thinking::High => "high"@,
            Thinking::Xhigh => "xhigh"@,
            Thinking::Max => "max"@,
        }
    }

    pub fn as_str(self) -> (r: &'static str)
        ensures
            r@ == self.spec_name(),
    {
        match self {
            Thinking::Low => "low",
            Thinking::Medium => "medium",
            Thinking::High => "high",
            Thinking::Xhigh => "xhigh",
            Thinking::Max => "max",
        }
    }
}

/// How a model reasons.
#[derive(Clone, Copy, Debug, Default, PartialEq, Eq, Structural)]
pub enum ReasoningMode {
    #[default]
    Standard,
    Pro,
}

impl ReasoningMode {
    pub open spec fn spec_name(self) -> Seq<char> {
        match self {
            ReasoningMode::Standard => "standard"@,
            ReasoningMode::Pro => "pro"@,
        }
    }

    pub fn as_str(self) -> (r: &'static str)
        ensures
            r@ == self.spec_name(),
    {
        match self {
            ReasoningMode::Standard => "standard",
            ReasoningMode::Pro => "pro",
        }
    }
}

/// How a model is used.
#[derive(Clone, Copy, Debug, Default, PartialEq, Eq, Structural)]
pub struct ModelSettings {
    pub model: Model,
    pub thinking: Thinking,
    pub reasoning_mode: ReasoningMode,
    pub fast_mode: bool,
}

/// The canonical JSON of settings.
pub open spec fn settings_json(v: ModelSettings) -> Seq<char> {
    "{\"model\":"@ + quoted(v.model.spec_name()) + ",\"thinking\":"@ + quoted(
        v.thinking.spec_name(),
    ) + ",\"reasoning_mode\":"@ + quoted(v.reasoning_mode.spec_name()) + ",\"fast_mode\":"@
        + bool_text(v.fast_mode) + "}"@
}

pub(crate) fn settings_text(v: &ModelSettings) -> (r: String)
    ensures
        r@ == settings_json(*v),
{
    let mut json = "{\"model\":".to_owned();
    push_quoted(&mut json, v.model.name());
    json.push_str(",\"thinking\":");
    push_quoted(&mut json, v.thinking.as_str());
    json.push_str(",\"reasoning_mode\":");
    push_quoted(&mut json, v.reasoning_mode.as_str());
    json.push_str(",\"fast_mode\":");
    push_bool(&mut json, v.fast_mode);
    json.push_str("}");
    json
}

/// Whether usage is complete and adds up.
pub open spec fn adds_up(usage: Usage) -> bool {
    &&& usage.input_tokens is Some && usage.output_tokens is Some
    &&& usage.total_tokens is Some && usage.cached_input_tokens is Some
    &&& usage.cached_input_tokens->0 <= usage.input_tokens->0
    &&& usage.input_tokens->0 + usage.output_tokens->0 == usage.total_tokens->0
}

/// Usage has a price exactly where its model has prices and it is complete and adds up. A token
/// more costs something, whatever else was used: an input token the price of the model, and a
/// cached one a tenth of it.
pub proof fn law_prices_grow_by_the_token(model: Model, a: Usage, b: Usage)
    requires
        adds_up(a),
        adds_up(b),
    ensures
        catalog_price(model, a) is Some <==> model != Model::Glm && model != Model::Spark,
        catalog_price(model, a) matches Some(price) ==> catalog_price(model, b) matches Some(other)
            ==> {
            &&& price >= 0
            &&& a.input_tokens == b.input_tokens && a.output_tokens->0 == b.output_tokens->0 + 1
                && a.cached_input_tokens->0 == b.cached_input_tokens->0 ==> price > other
            &&& a.output_tokens == b.output_tokens && a.input_tokens->0 == b.input_tokens->0 + 1
                && a.cached_input_tokens == b.cached_input_tokens ==> price - other == (
            rates_of(model)->0).input && price > other
            &&& a.output_tokens == b.output_tokens && a.input_tokens->0 == b.input_tokens->0 + 1
                && a.cached_input_tokens->0 == b.cached_input_tokens->0 + 1 ==> 10 * (price - other)
                == (rates_of(model)->0).input
        },
{
    if let Some(rates) = rates_of(model) {
        let (i, c, o) = (
            a.input_tokens->0 as int,
            a.cached_input_tokens->0 as int,
            a.output_tokens->0 as int,
        );
        let (j, d, p) = (
            b.input_tokens->0 as int,
            b.cached_input_tokens->0 as int,
            b.output_tokens->0 as int,
        );
        let (x, y, z) = (rates.input as int, rates.cached as int, rates.output as int);
        assert(10 * y == x);
        assert((i - c) * x >= 0 && c * y >= 0 && o * z >= 0) by (nonlinear_arith)
            requires
                0 <= c <= i,
                0 <= o,
                x >= 0,
                y >= 0,
                z >= 0,
        ;
        assert((p + 1) * z == p * z + z) by (nonlinear_arith);
        assert((j + 1 - d) * x == (j - d) * x + x) by (nonlinear_arith);
        assert((d + 1) * y == d * y + y) by (nonlinear_arith);
    }
}

} // verus!
