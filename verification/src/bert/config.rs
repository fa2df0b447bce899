//! Architecture configuration independent of the artifact format that carried it.

use crate::engine::single::{law_narrowing_keeps_the_sign, narrowed_bits, Single, INFINITY_BITS};
use crate::text::{decimal, number, same_text};
use vstd::prelude::*;

verus! {

/// Geometry and numerical policy of one BERT encoder.
#[derive(Clone, Copy, Debug)]
pub struct BertConfig {
    pub vocab_size: usize,
    pub hidden_size: usize,
    pub num_hidden_layers: usize,
    pub num_attention_heads: usize,
    pub intermediate_size: usize,
    pub max_position_embeddings: usize,
    pub type_vocab_size: usize,
    pub layer_norm_eps: Single,
}

impl PartialEq for BertConfig {
    fn eq(&self, other: &Self) -> (r: bool) {
        self.vocab_size == other.vocab_size && self.hidden_size == other.hidden_size
            && self.num_hidden_layers == other.num_hidden_layers && self.num_attention_heads
            == other.num_attention_heads && self.intermediate_size == other.intermediate_size
            && self.max_position_embeddings == other.max_position_embeddings
            && self.type_vocab_size == other.type_vocab_size && self.layer_norm_eps
            == other.layer_norm_eps
    }
}

impl vstd::std_specs::cmp::PartialEqSpecImpl for BertConfig {
    open spec fn obeys_eq_spec() -> bool {
        true
    }

    open spec fn eq_spec(&self, other: &Self) -> bool {
        &&& self.vocab_size == other.vocab_size
        &&& self.hidden_size == other.hidden_size
        &&& self.num_hidden_layers == other.num_hidden_layers
        &&& self.num_attention_heads == other.num_attention_heads
        &&& self.intermediate_size == other.intermediate_size
        &&& self.max_position_embeddings == other.max_position_embeddings
        &&& self.type_vocab_size == other.type_vocab_size
        &&& self.layer_norm_eps.equals(other.layer_norm_eps)
    }
}

/// A JSON document as `serde_json` holds it.
#[verifier::external_type_specification]
#[verifier::external_body]
pub struct ExternalJsonValue(serde_json::Value);

/// One field of a configuration document, as far as a configuration reads it.
#[derive(Clone, Debug, PartialEq, Eq)]
pub struct ConfigField {
    /// The text, where the field holds a string.
    pub text: Option<String>,
    /// The number, where the field holds an unsigned integer.
    pub unsigned: Option<u64>,
    /// The number's double-precision bit pattern and its decimal rendering, where the
    /// field holds a number.
    pub double: Option<(u64, String)>,
    /// The field's compact JSON rendering.
    pub rendered: String,
}

/// What a configuration field holds.
#[verifier::ext_equal]
pub struct ConfigFieldView {
    pub text: Option<Seq<char>>,
    pub unsigned: Option<u64>,
    pub double: Option<(u64, Seq<char>)>,
    pub rendered: Seq<char>,
}

impl View for ConfigField {
    type V = ConfigFieldView;

    open spec fn view(&self) -> ConfigFieldView {
        ConfigFieldView {
            text: match self.text {
                Some(text) => Some(text@),
                None => None,
            },
            unsigned: self.unsigned,
            double: match self.double {
                Some(double) => Some((double.0, double.1@)),
                None => None,
            },
            rendered: self.rendered@,
        }
    }
}

/// A field's view, where there is a field.
pub open spec fn field_view(field: Option<ConfigField>) -> Option<ConfigFieldView> {
    match field {
        Some(field) => Some(field@),
        None => None,
    }
}

/// The members of a JSON object by name. A document that is no object has none.
pub uninterp spec fn object_members(document: serde_json::Value) -> Map<
    Seq<char>,
    ConfigFieldView,
>;

/// The member of a document under one name, in the library's own terms.
pub open spec fn member(document: serde_json::Value, name: Seq<char>) -> Option<ConfigFieldView> {
    if object_members(document).contains_key(name) {
        Some(object_members(document)[name])
    } else {
        None
    }
}

/// Reads one member of a JSON object with `serde_json::Value::get`, and takes over what
/// `as_str`, `as_u64`, `as_f64` and the compact rendering give of it. The contract claims
/// that the answer is a function of the document and the name: the member that the object
/// holds under that name, or none where it holds none or the document is no object.
#[verifier::external_body]
fn read_member(document: &serde_json::Value, name: &str) -> (r: Option<ConfigField>)
    ensures
        r is Some == object_members(*document).contains_key(name@),
        r is Some ==> r->Some_0@ == object_members(*document)[name@],
{
    document.get(name).map(
        |value|
            ConfigField {
                text: value.as_str().map(|text| text.to_owned()),
                unsigned: value.as_u64(),
                double: value.as_f64().map(|number| (number.to_bits(), number.to_string())),
                rendered: value.to_string(),
            },
    )
}

/// The fields that a configuration reads out of its document.
#[derive(Clone, Debug, PartialEq, Eq)]
pub struct ConfigFields {
    pub model_type: Option<ConfigField>,
    pub hidden_act: Option<ConfigField>,
    pub vocab_size: Option<ConfigField>,
    pub hidden_size: Option<ConfigField>,
    pub num_hidden_layers: Option<ConfigField>,
    pub num_attention_heads: Option<ConfigField>,
    pub intermediate_size: Option<ConfigField>,
    pub max_position_embeddings: Option<ConfigField>,
    pub type_vocab_size: Option<ConfigField>,
    pub layer_norm_eps: Option<ConfigField>,
}

/// What those fields hold.
#[verifier::ext_equal]
pub struct ConfigFieldsView {
    pub model_type: Option<ConfigFieldView>,
    pub hidden_act: Option<ConfigFieldView>,
    pub vocab_size: Option<ConfigFieldView>,
    pub hidden_size: Option<ConfigFieldView>,
    pub num_hidden_layers: Option<ConfigFieldView>,
    pub num_attention_heads: Option<ConfigFieldView>,
    pub intermediate_size: Option<ConfigFieldView>,
    pub max_position_embeddings: Option<ConfigFieldView>,
    pub type_vocab_size: Option<ConfigFieldView>,
    pub layer_norm_eps: Option<ConfigFieldView>,
}

impl View for ConfigFields {
    type V = ConfigFieldsView;

    open spec fn view(&self) -> ConfigFieldsView {
        ConfigFieldsView {
            model_type: field_view(self.model_type),
            hidden_act: field_view(self.hidden_act),
            vocab_size: field_view(self.vocab_size),
            hidden_size: field_view(self.hidden_size),
            num_hidden_layers: field_view(self.num_hidden_layers),
            num_attention_heads: field_view(self.num_attention_heads),
            intermediate_size: field_view(self.intermediate_size),
            max_position_embeddings: field_view(self.max_position_embeddings),
            type_vocab_size: field_view(self.type_vocab_size),
            layer_norm_eps: field_view(self.layer_norm_eps),
        }
    }
}

/// The members of a document that a configuration reads.
pub open spec fn fields_of(document: serde_json::Value) -> ConfigFieldsView {
    ConfigFieldsView {
        model_type: member(document, "model_type"@),
        hidden_act: member(document, "hidden_act"@),
        vocab_size: member(document, "vocab_size"@),
        hidden_size: member(document, "hidden_size"@),
        num_hidden_layers: member(document, "num_hidden_layers"@),
        num_attention_heads: member(document, "num_attention_heads"@),
        intermediate_size: member(document, "intermediate_size"@),
        max_position_embeddings: member(document, "max_position_embeddings"@),
        type_vocab_size: member(document, "type_vocab_size"@),
        layer_norm_eps: member(document, "layer_norm_eps"@),
    }
}

/// Why a configuration cannot drive this encoder.
#[derive(Clone, Debug, PartialEq)]
pub enum ConfigError {
    MissingField(&'static str),
    InvalidField { field: &'static str, value: String },
    UnsupportedModelType(String),
    UnsupportedActivation(String),
    NonPositive,
    IndivisibleHeads { hidden_size: usize, heads: usize },
    InvalidEpsilon(Single),
}

/// What a configuration error says.
#[verifier::ext_equal]
pub enum ConfigErrorView {
    MissingField(Seq<char>),
    InvalidField { field: Seq<char>, value: Seq<char> },
    UnsupportedModelType(Seq<char>),
    UnsupportedActivation(Seq<char>),
    NonPositive,
    IndivisibleHeads { hidden_size: usize, heads: usize },
    InvalidEpsilon(Single),
}

impl View for ConfigError {
    type V = ConfigErrorView;

    open spec fn view(&self) -> ConfigErrorView {
        match *self {
            ConfigError::MissingField(field) => ConfigErrorView::MissingField(field@),
            ConfigError::InvalidField { field, value } => ConfigErrorView::InvalidField {
                field: field@,
                value: value@,
            },
            ConfigError::UnsupportedModelType(found) => ConfigErrorView::UnsupportedModelType(
                found@,
            ),
            ConfigError::UnsupportedActivation(found) => ConfigErrorView::UnsupportedActivation(
                found@,
            ),
            ConfigError::NonPositive => ConfigErrorView::NonPositive,
            ConfigError::IndivisibleHeads { hidden_size, heads } =>
                ConfigErrorView::IndivisibleHeads { hidden_size, heads },
            ConfigError::InvalidEpsilon(epsilon) => ConfigErrorView::InvalidEpsilon(epsilon),
        }
    }
}

/// The text of a field, where it holds one.
pub open spec fn text_of(field: Option<ConfigFieldView>) -> Option<Seq<char>> {
    match field {
        Some(field) => field.text,
        None => None,
    }
}

/// What a required dimension reads, or why it cannot be used.
pub open spec fn required_dimension(name: Seq<char>, field: Option<ConfigFieldView>) -> Result<
    usize,
    ConfigErrorView,
> {
    match field {
        None => Err(ConfigErrorView::MissingField(name)),
        Some(field) => match field.unsigned {
            None => Err(ConfigErrorView::InvalidField { field: name, value: field.rendered }),
            Some(found) => if found <= usize::MAX {
                Ok(found as usize)
            } else {
                Err(ConfigErrorView::InvalidField { field: name, value: decimal(found as nat) })
            },
        },
    }
}

/// Whether a value is finite and greater than zero.
pub open spec fn positive_finite(value: Single) -> bool {
    0 < value.bits < INFINITY_BITS
}

/// What a required scalar reads, or why it cannot be used.
pub open spec fn required_scalar(name: Seq<char>, field: Option<ConfigFieldView>) -> Result<
    Single,
    ConfigErrorView,
> {
    match field {
        None => Err(ConfigErrorView::MissingField(name)),
        Some(field) => match field.double {
            None => Err(ConfigErrorView::InvalidField { field: name, value: field.rendered }),
            Some(found) => {
                let narrowed = Single { bits: narrowed_bits(found.0) as u32 };
                if positive_finite(narrowed) {
                    Ok(narrowed)
                } else {
                    Err(ConfigErrorView::InvalidField { field: name, value: found.1 })
                }
            },
        },
    }
}

/// The configuration that the fields describe, before its geometry is judged, or the
/// first field that stops it.
pub open spec fn described(fields: ConfigFieldsView) -> Result<BertConfig, ConfigErrorView> {
    let model_type = text_of(fields.model_type);
    let activation = match text_of(fields.hidden_act) {
        Some(activation) => activation,
        None => "gelu"@,
    };
    if model_type != Some("bert"@) {
        Err(
            ConfigErrorView::UnsupportedModelType(
                match model_type {
                    Some(found) => found,
                    None => "<absent>"@,
                },
            ),
        )
    } else if activation != "gelu"@ {
        Err(ConfigErrorView::UnsupportedActivation(activation))
    } else {
        match required_dimension("vocab_size"@, fields.vocab_size) {
            Err(error) => Err(error),
            Ok(vocab_size) => match required_dimension("hidden_size"@, fields.hidden_size) {
                Err(error) => Err(error),
                Ok(hidden_size) => match required_dimension(
                    "num_hidden_layers"@,
                    fields.num_hidden_layers,
                ) {
                    Err(error) => Err(error),
                    Ok(num_hidden_layers) => match required_dimension(
                        "num_attention_heads"@,
                        fields.num_attention_heads,
                    ) {
                        Err(error) => Err(error),
                        Ok(num_attention_heads) => match required_dimension(
                            "intermediate_size"@,
                            fields.intermediate_size,
                        ) {
                            Err(error) => Err(error),
                            Ok(intermediate_size) => match required_dimension(
                                "max_position_embeddings"@,
                                fields.max_position_embeddings,
                            ) {
                                Err(error) => Err(error),
                                Ok(max_position_embeddings) => match required_dimension(
                                    "type_vocab_size"@,
                                    fields.type_vocab_size,
                                ) {
                                    Err(error) => Err(error),
                                    Ok(type_vocab_size) => match required_scalar(
                                        "layer_norm_eps"@,
                                        fields.layer_norm_eps,
                                    ) {
                                        Err(error) => Err(error),
                                        Ok(layer_norm_eps) => Ok(
                                            BertConfig {
                                                vocab_size,
                                                hidden_size,
                                                num_hidden_layers,
                                                num_attention_heads,
                                                intermediate_size,
                                                max_position_embeddings,
                                                type_vocab_size,
                                                layer_norm_eps,
                                            },
                                        ),
                                    },
                                },
                            },
                        },
                    },
                },
            },
        }
    }
}

/// The usable configuration that the fields describe, or why there is none.
pub open spec fn configured(fields: ConfigFieldsView) -> Result<BertConfig, ConfigErrorView> {
    match described(fields) {
        Err(error) => Err(error),
        Ok(config) => match config.defect() {
            Some(error) => Err(error@),
            None => Ok(config),
        },
    }
}

impl BertConfig {
    /// Whether every dimension is positive.
    pub open spec fn all_positive(self) -> bool {
        &&& self.vocab_size > 0
        &&& self.hidden_size > 0
        &&& self.num_hidden_layers > 0
        &&& self.num_attention_heads > 0
        &&& self.intermediate_size > 0
        &&& self.max_position_embeddings > 0
        &&& self.type_vocab_size > 0
    }

    /// Why the geometry cannot describe an encoder, if it cannot.
    pub open spec fn defect(self) -> Option<ConfigError> {
        if !self.all_positive() {
            Some(ConfigError::NonPositive)
        } else if self.hidden_size % self.num_attention_heads != 0 {
            Some(
                ConfigError::IndivisibleHeads {
                    hidden_size: self.hidden_size,
                    heads: self.num_attention_heads,
                },
            )
        } else if !positive_finite(self.layer_norm_eps) {
            Some(ConfigError::InvalidEpsilon(self.layer_norm_eps))
        } else {
            None
        }
    }

    /// Read a `config.json` value produced by a Hugging Face checkpoint.
    ///
    /// Only the fields this execution path uses are required; a checkpoint may carry many
    /// more without affecting them. `hidden_act` must be `gelu` because the device path
    /// implements that activation and silently substituting another would change the
    /// model's arithmetic.
    ///
    /// # Errors
    /// Returns [`ConfigError`] for a missing, wrongly typed or unusable field.
    pub fn from_json(config: &serde_json::Value) -> (r: Result<Self, ConfigError>)
        ensures
            match configured(fields_of(*config)) {
                Ok(expected) => r == Ok::<BertConfig, ConfigError>(expected),
                Err(error) => r is Err && r->Err_0@ == error,
            },
            r matches Ok(read) ==> {
                &&& number_under(*config, "vocab_size"@) == Some(read.vocab_size as u64)
                &&& number_under(*config, "hidden_size"@) == Some(read.hidden_size as u64)
                &&& number_under(*config, "num_hidden_layers"@) == Some(
                    read.num_hidden_layers as u64,
                )
                &&& number_under(*config, "num_attention_heads"@) == Some(
                    read.num_attention_heads as u64,
                )
                &&& number_under(*config, "intermediate_size"@) == Some(
                    read.intermediate_size as u64,
                )
                &&& number_under(*config, "max_position_embeddings"@) == Some(
                    read.max_position_embeddings as u64,
                )
                &&& number_under(*config, "type_vocab_size"@) == Some(read.type_vocab_size as u64)
            },
    {
        proof {
            if configured(fields_of(*config)) is Ok {
                law_dimensions_come_from_their_members(*config);
            }
        }
        Self::from_fields(
            &ConfigFields {
                model_type: read_member(config, "model_type"),
                hidden_act: read_member(config, "hidden_act"),
                vocab_size: read_member(config, "vocab_size"),
                hidden_size: read_member(config, "hidden_size"),
                num_hidden_layers: read_member(config, "num_hidden_layers"),
                num_attention_heads: read_member(config, "num_attention_heads"),
                intermediate_size: read_member(config, "intermediate_size"),
                max_position_embeddings: read_member(config, "max_position_embeddings"),
                type_vocab_size: read_member(config, "type_vocab_size"),
                layer_norm_eps: read_member(config, "layer_norm_eps"),
            },
        )
    }

    /// Read a configuration out of the fields that its document holds.
    ///
    /// # Errors
    /// Returns [`ConfigError`] for a missing, wrongly typed or unusable field.
    pub fn from_fields(fields: &ConfigFields) -> (r: Result<Self, ConfigError>)
        ensures
            match configured(fields@) {
                Ok(expected) => r == Ok::<BertConfig, ConfigError>(expected),
                Err(error) => r is Err && r->Err_0@ == error,
            },
    {
        let model_type = field_text(&fields.model_type, "<absent>");
        if !has_text(&fields.model_type) || !same_text(model_type, "bert") {
            return Err(ConfigError::UnsupportedModelType(model_type.to_owned()));
        }
        let activation = field_text(&fields.hidden_act, "gelu");
        if !same_text(activation, "gelu") {
            return Err(ConfigError::UnsupportedActivation(activation.to_owned()));
        }
        let config = BertConfig {
            vocab_size: required_usize(&fields.vocab_size, "vocab_size")?,
            hidden_size: required_usize(&fields.hidden_size, "hidden_size")?,
            num_hidden_layers: required_usize(&fields.num_hidden_layers, "num_hidden_layers")?,
            num_attention_heads: required_usize(
                &fields.num_attention_heads,
                "num_attention_heads",
            )?,
            intermediate_size: required_usize(&fields.intermediate_size, "intermediate_size")?,
            max_position_embeddings: required_usize(
                &fields.max_position_embeddings,
                "max_position_embeddings",
            )?,
            type_vocab_size: required_usize(&fields.type_vocab_size, "type_vocab_size")?,
            layer_norm_eps: required_f32(&fields.layer_norm_eps, "layer_norm_eps")?,
        };
        config.validate()?;
        Ok(config)
    }

    /// # Errors
    /// Returns [`ConfigError`] for geometry that cannot describe a BERT encoder.
    pub fn validate(&self) -> (r: Result<(), ConfigError>)
        ensures
            match self.defect() {
                Some(error) => r == Err::<(), ConfigError>(error),
                None => r == Ok::<(), ConfigError>(()),
            },
    {
        if self.vocab_size == 0 || self.hidden_size == 0 || self.num_hidden_layers == 0
            || self.num_attention_heads == 0 || self.intermediate_size == 0
            || self.max_position_embeddings == 0 || self.type_vocab_size == 0 {
            return Err(ConfigError::NonPositive);
        }
        if self.hidden_size % self.num_attention_heads != 0 {
            return Err(
                ConfigError::IndivisibleHeads {
                    hidden_size: self.hidden_size,
                    heads: self.num_attention_heads,
                },
            );
        }
        if !is_positive_finite(self.layer_norm_eps) {
            return Err(ConfigError::InvalidEpsilon(self.layer_norm_eps));
        }
        Ok(())
    }

    /// Width of one attention head.
    #[must_use]
    pub fn head_width(&self) -> (r: usize)
        requires
            self.num_attention_heads > 0,
        ensures
            r == self.hidden_size / self.num_attention_heads,
    {
        self.hidden_size / self.num_attention_heads
    }
}

fn is_positive_finite(value: Single) -> (r: bool)
    ensures
        r == positive_finite(value),
{
    0 < value.bits && value.bits < INFINITY_BITS
}

fn has_text(field: &Option<ConfigField>) -> (r: bool)
    ensures
        r == (text_of(field_view(*field)) is Some),
{
    match field {
        Some(field) => field.text.is_some(),
        None => false,
    }
}

fn field_text<'a>(field: &'a Option<ConfigField>, absent: &'a str) -> (r: &'a str)
    ensures
        r@ == (match text_of(field_view(*field)) {
            Some(text) => text,
            None => absent@,
        }),
{
    match field {
        Some(field) => match &field.text {
            Some(text) => text.as_str(),
            None => absent,
        },
        None => absent,
    }
}

fn required_usize(value: &Option<ConfigField>, field: &'static str) -> (r: Result<
    usize,
    ConfigError,
>)
    ensures
        match required_dimension(field@, field_view(*value)) {
            Ok(expected) => r == Ok::<usize, ConfigError>(expected),
            Err(error) => r is Err && r->Err_0@ == error,
        },
{
    match value {
        None => Err(ConfigError::MissingField(field)),
        Some(value) => match value.unsigned {
            None => Err(ConfigError::InvalidField { field, value: value.rendered.clone() }),
            Some(found) => if found <= usize::MAX as u64 {
                Ok(found as usize)
            } else {
                Err(ConfigError::InvalidField { field, value: number(found) })
            },
        },
    }
}

fn required_f32(value: &Option<ConfigField>, field: &'static str) -> (r: Result<
    Single,
    ConfigError,
>)
    ensures
        match required_scalar(field@, field_view(*value)) {
            Ok(expected) => r == Ok::<Single, ConfigError>(expected),
            Err(error) => r is Err && r->Err_0@ == error,
        },
{
    match value {
        None => Err(ConfigError::MissingField(field)),
        Some(value) => match &value.double {
            None => Err(ConfigError::InvalidField { field, value: value.rendered.clone() }),
            Some(found) => {
                let narrowed = Single::narrowed(found.0);
                if is_positive_finite(narrowed) {
                    Ok(narrowed)
                } else {
                    Err(ConfigError::InvalidField { field, value: found.1.clone() })
                }
            },
        },
    }
}

/// A checkpoint may carry any further fields: two documents that agree on the fields a
/// configuration reads give the same configuration, or the same error.
pub proof fn law_other_fields_do_not_matter(a: serde_json::Value, b: serde_json::Value)
    requires
        forall|name: Seq<char>|
            #![auto]
            is_read(name) ==> member(a, name) == member(b, name),
    ensures
        configured(fields_of(a)) == configured(fields_of(b)),
{
    assert(fields_of(a) =~= fields_of(b)) by {
        assert(is_read("model_type"@));
        assert(is_read("hidden_act"@));
        assert(is_read("vocab_size"@));
        assert(is_read("hidden_size"@));
        assert(is_read("num_hidden_layers"@));
        assert(is_read("num_attention_heads"@));
        assert(is_read("intermediate_size"@));
        assert(is_read("max_position_embeddings"@));
        assert(is_read("type_vocab_size"@));
        assert(is_read("layer_norm_eps"@));
    }
}

/// Whether a configuration reads the member under this name.
pub open spec fn is_read(name: Seq<char>) -> bool {
    ||| name == "model_type"@
    ||| name == "hidden_act"@
    ||| name == "vocab_size"@
    ||| name == "hidden_size"@
    ||| name == "num_hidden_layers"@
    ||| name == "num_attention_heads"@
    ||| name == "intermediate_size"@
    ||| name == "max_position_embeddings"@
    ||| name == "type_vocab_size"@
    ||| name == "layer_norm_eps"@
}

/// A configuration that was read is usable: its geometry has no defect, its heads divide
/// the hidden width exactly, and its epsilon is finite and positive.
pub proof fn law_read_configurations_are_usable(fields: ConfigFieldsView)
    requires
        configured(fields) is Ok,
    ensures
        ({
            let config = configured(fields)->Ok_0;
            &&& config.all_positive()
            &&& config.hidden_size == config.num_attention_heads * (config.hidden_size
                / config.num_attention_heads)
            &&& config.layer_norm_eps.finite()
            &&& config.layer_norm_eps.key() > 0
        }),
{
    let config = configured(fields)->Ok_0;
    assert(config.hidden_size == config.num_attention_heads * (config.hidden_size
        / config.num_attention_heads)) by (nonlinear_arith)
        requires
            config.num_attention_heads > 0,
            config.hidden_size % config.num_attention_heads == 0,
    ;
}

/// The unsigned number that a document holds under a name, where it holds one there.
pub open spec fn number_under(document: serde_json::Value, name: Seq<char>) -> Option<u64> {
    if object_members(document).contains_key(name) {
        object_members(document)[name].unsigned
    } else {
        None
    }
}

/// The text that a document holds under a name, where it holds one there.
pub open spec fn text_under(document: serde_json::Value, name: Seq<char>) -> Option<Seq<char>> {
    if object_members(document).contains_key(name) {
        object_members(document)[name].text
    } else {
        None
    }
}

/// Every dimension of a configuration that was read is the number that its document holds
/// under the name of that dimension, its epsilon is the nearest single to the number under
/// the name of the epsilon, and the document names this model type and no other activation.
pub proof fn law_dimensions_come_from_their_members(document: serde_json::Value)
    requires
        configured(fields_of(document)) is Ok,
    ensures
        ({
            let config = configured(fields_of(document))->Ok_0;
            &&& number_under(document, "vocab_size"@) == Some(config.vocab_size as u64)
            &&& number_under(document, "hidden_size"@) == Some(config.hidden_size as u64)
            &&& number_under(document, "num_hidden_layers"@) == Some(
                config.num_hidden_layers as u64,
            )
            &&& number_under(document, "num_attention_heads"@) == Some(
                config.num_attention_heads as u64,
            )
            &&& number_under(document, "intermediate_size"@) == Some(
                config.intermediate_size as u64,
            )
            &&& number_under(document, "max_position_embeddings"@) == Some(
                config.max_position_embeddings as u64,
            )
            &&& number_under(document, "type_vocab_size"@) == Some(config.type_vocab_size as u64)
            &&& object_members(document).contains_key("layer_norm_eps"@)
            &&& object_members(document)["layer_norm_eps"@].double is Some
            &&& config.layer_norm_eps.bits == narrowed_bits(
                object_members(document)["layer_norm_eps"@].double->Some_0.0,
            )
            &&& text_under(document, "model_type"@) == Some("bert"@)
            &&& text_under(document, "hidden_act"@) is None || text_under(
                document,
                "hidden_act"@,
            ) == Some("gelu"@)
        }),
{
    law_narrowing_keeps_the_sign(
        object_members(document)["layer_norm_eps"@].double->Some_0.0,
    );
}

/// Whether a number is one that a dimension can have on this machine.
pub open spec fn usable_dimension(found: Option<u64>) -> bool {
    found is Some && 0 < found->Some_0 <= usize::MAX
}

/// A document is refused for nothing but its own members: one that names this model type and
/// no other activation, whose dimensions are positive and addressable, whose heads divide the
/// hidden width and whose epsilon is a positive finite single is read.
pub proof fn law_well_formed_documents_are_read(document: serde_json::Value)
    requires
        text_under(document, "model_type"@) == Some("bert"@),
        text_under(document, "hidden_act"@) is None || text_under(document, "hidden_act"@)
            == Some("gelu"@),
        usable_dimension(number_under(document, "vocab_size"@)),
        usable_dimension(number_under(document, "hidden_size"@)),
        usable_dimension(number_under(document, "num_hidden_layers"@)),
        usable_dimension(number_under(document, "num_attention_heads"@)),
        usable_dimension(number_under(document, "intermediate_size"@)),
        usable_dimension(number_under(document, "max_position_embeddings"@)),
        usable_dimension(number_under(document, "type_vocab_size"@)),
        number_under(document, "hidden_size"@)->Some_0 % number_under(
            document,
            "num_attention_heads"@,
        )->Some_0 == 0,
        object_members(document).contains_key("layer_norm_eps"@),
        object_members(document)["layer_norm_eps"@].double is Some,
        0 < narrowed_bits(object_members(document)["layer_norm_eps"@].double->Some_0.0)
            < INFINITY_BITS,
    ensures
        configured(fields_of(document)) is Ok,
{
}

/// Geometry is usable exactly where no dimension is zero, the heads divide the hidden width
/// and the epsilon is a positive number that is not infinite; what is refused is refused for
/// the first of these that fails.
pub proof fn law_usable_geometry(config: BertConfig)
    ensures
        config.defect() is None <==> {
            &&& config.vocab_size > 0 && config.hidden_size > 0 && config.num_hidden_layers > 0
            &&& config.num_attention_heads > 0 && config.intermediate_size > 0
            &&& config.max_position_embeddings > 0 && config.type_vocab_size > 0
            &&& config.hidden_size % config.num_attention_heads == 0
            &&& config.layer_norm_eps.finite() && config.layer_norm_eps.key() > 0
        },
        config.defect() is Some ==> match config.defect()->Some_0 {
            ConfigError::NonPositive => config.vocab_size == 0 || config.hidden_size == 0
                || config.num_hidden_layers == 0 || config.num_attention_heads == 0
                || config.intermediate_size == 0 || config.max_position_embeddings == 0
                || config.type_vocab_size == 0,
            ConfigError::IndivisibleHeads { hidden_size, heads } => hidden_size
                == config.hidden_size && heads == config.num_attention_heads && hidden_size
                % heads != 0,
            ConfigError::InvalidEpsilon(epsilon) => epsilon == config.layer_norm_eps && !(
            epsilon.finite() && epsilon.key() > 0),
            _ => false,
        },
{
}

} // verus!
