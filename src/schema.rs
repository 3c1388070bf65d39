use vstd::prelude::*;

use crate::abi::{escape, json_field, json_fields, json_items, json_text, lit, AbiField, AbiValue, Felt};
use crate::hex::{hex_text, nibble_digits, strip_zeros};
use vstd::string::{StrSliceExecFns, StringSliceAdditionalSpecFns};

verus! {

/// The shape of an ABI tree: which nodes are field elements, which are lists
/// (with the shape of their items) and which are records (with their fields
/// in declared order).
#[derive(Debug)]
pub enum Schema {
    Felt,
    List(Box<Schema>),
    Record(Vec<SchemaField>),
}

#[derive(Debug)]
pub struct SchemaField {
    pub name: Vec<u8>,
    pub kind: Schema,
}

/// `v` has the shape of `s`, with every field element zero and every list
/// empty.
pub open spec fn is_zero_tree(v: AbiValue, s: Schema) -> bool
    decreases v,
{
    match (v, s) {
        (AbiValue::Scalar(f), Schema::Felt) => f.bytes@.len() == 0,
        (AbiValue::List(items), Schema::List(_)) => items@.len() == 0,
        (AbiValue::Record(fields), Schema::Record(kinds)) => zero_fields(fields@, kinds@),
        _ => false,
    }
}

pub open spec fn zero_fields(fields: Seq<AbiField>, kinds: Seq<SchemaField>) -> bool
    decreases fields,
{
    if fields.len() != kinds.len() {
        false
    } else if fields.len() == 0 {
        true
    } else {
        &&& zero_fields(fields.drop_last(), kinds.drop_last())
        &&& fields.last().name@ == kinds.last().name@
        &&& is_zero_tree(fields.last().value, kinds.last().kind)
    }
}

/// The JSON text of the zero tree of `s`: `"0x0"` for each field element, `[]`
/// for each list, and the record keys in order.
pub open spec fn zero_json(s: Schema) -> Seq<u8>
    decreases s,
{
    match s {
        Schema::Felt => lit(34) + seq![48u8, 120u8, 48u8] + lit(34),
        Schema::List(_) => lit(91) + lit(93),
        Schema::Record(kinds) => lit(123) + zero_json_fields(kinds@) + lit(125),
    }
}

pub open spec fn zero_json_fields(kinds: Seq<SchemaField>) -> Seq<u8>
    decreases kinds,
{
    if kinds.len() == 0 {
        seq![]
    } else if kinds.len() == 1 {
        zero_json_field(kinds[0])
    } else {
        zero_json_fields(kinds.drop_last()) + lit(44) + zero_json_field(kinds.last())
    }
}

pub open spec fn zero_json_field(k: SchemaField) -> Seq<u8>
    decreases k,
{
    lit(34) + escape(k.name@) + lit(34) + lit(58) + zero_json(k.kind)
}

/// The JSON text of a zero tree depends on its schema alone: every field
/// element is rendered `"0x0"` and every list `[]`. Two zero trees of one
/// schema therefore serialize to identical bytes.
pub proof fn lemma_zero_tree_json(v: AbiValue, s: Schema)
    requires
        is_zero_tree(v, s),
    ensures
        json_text(v) == zero_json(s),
    decreases v,
{
    match (v, s) {
        (AbiValue::Scalar(f), Schema::Felt) => {
            assert(nibble_digits(f.bytes@) =~= seq![]);
            assert(strip_zeros(seq![]) =~= seq![]);
            assert(hex_text(f.bytes@) =~= seq![48u8, 120u8, 48u8]);
        },
        (AbiValue::List(items), Schema::List(_)) => {
            assert(json_items(items@) =~= seq![]);
        },
        (AbiValue::Record(fields), Schema::Record(kinds)) => {
            lemma_zero_fields_json(fields@, kinds@);
        },
        _ => {},
    }
}

pub proof fn lemma_zero_fields_json(fields: Seq<AbiField>, kinds: Seq<SchemaField>)
    requires
        zero_fields(fields, kinds),
    ensures
        json_fields(fields) == zero_json_fields(kinds),
    decreases fields,
{
    if fields.len() > 0 {
        lemma_zero_fields_json(fields.drop_last(), kinds.drop_last());
        lemma_zero_tree_json(fields.last().value, kinds.last().kind);
        assert(json_field(fields.last()) == zero_json_field(kinds.last()));
        if fields.len() == 1 {
            assert(fields[0] == fields.last());
            assert(kinds[0] == kinds.last());
        }
    }
}

/// The zero tree of `s`, in which every field element is zero and every list
/// is empty.
pub fn placeholder(s: &Schema) -> (r: AbiValue)
    ensures
        is_zero_tree(r, *s),
    decreases s,
{
    broadcast use vstd::std_specs::vec::axiom_vec_index_decreases;

    match s {
        Schema::Felt => AbiValue::Scalar(Felt { bytes: Vec::new() }),
        Schema::List(_) => AbiValue::List(Vec::new()),
        Schema::Record(kinds) => {
            let mut fields: Vec<AbiField> = Vec::new();
            let mut i: usize = 0;
            while i < kinds.len()
                invariant
                    *s == Schema::Record(*kinds),
                    i <= kinds@.len(),
                    zero_fields(fields@, kinds@.subrange(0, i as int)),
                decreases kinds@.len() - i,
            {
                let k = &kinds[i];
                proof {
                    assert(decreases_to!(*s => s->Record_0));
                    assert(decreases_to!(*kinds => kinds[i as int]));
                    assert(decreases_to!(kinds[i as int] => kinds[i as int].kind));
                }
                let value = placeholder(&k.kind);
                let name = k.name.clone();
                let ghost pre_fields = fields@;
                fields.push(AbiField { name, value });
                proof {
                    let pre = kinds@.subrange(0, i as int + 1);
                    assert(pre.drop_last() =~= kinds@.subrange(0, i as int));
                    assert(fields@.drop_last() =~= pre_fields);
                    assert(name@ == k.name@);
                }
                i = i + 1;
            }
            assert(kinds@.subrange(0, kinds@.len() as int) =~= kinds@);
            AbiValue::Record(fields)
        },
    }
}

/// The fields of a record schema, in order; none for another schema.
pub open spec fn fields_of(s: Schema) -> Seq<SchemaField> {
    match s {
        Schema::Record(f) => f@,
        _ => seq![],
    }
}

/// `s` is a record of `n` fields.
pub open spec fn is_record(s: Schema, n: int) -> bool {
    s is Record && fields_of(s).len() == n
}

/// Field `i` of record `s` is keyed `name`.
pub open spec fn named(s: Schema, i: int, name: &str) -> bool {
    fields_of(s)[i].name@ == name.spec_bytes()
}

/// The schema of field `i` of record `s`.
pub open spec fn kind(s: Schema, i: int) -> Schema {
    fields_of(s)[i].kind
}

/// Field `i` of record `s` is the field element keyed `name`.
pub open spec fn felt_field(s: Schema, i: int, name: &str) -> bool {
    named(s, i, name) && kind(s, i) == Schema::Felt
}

/// The item schema of a list schema.
pub open spec fn item(s: Schema) -> Schema {
    match s {
        Schema::List(e) => *e,
        _ => Schema::Felt,
    }
}

/// Field `i` of record `s` is the list of field elements keyed `name`.
pub open spec fn felt_list_field(s: Schema, i: int, name: &str) -> bool {
    named(s, i, name) && kind(s, i) is List && item(kind(s, i)) == Schema::Felt
}

pub open spec fn is_vector_commitment_config(s: Schema) -> bool {
    &&& is_record(s, 2)
    &&& felt_field(s, 0, "height")
    &&& felt_field(s, 1, "n_verifier_friendly_commitment_layers")
}

pub open spec fn is_table_commitment_config(s: Schema) -> bool {
    &&& is_record(s, 2)
    &&& felt_field(s, 0, "n_columns")
    &&& named(s, 1, "vector") && is_vector_commitment_config(kind(s, 1))
}

pub open spec fn is_traces_config(s: Schema) -> bool {
    &&& is_record(s, 2)
    &&& named(s, 0, "original") && is_table_commitment_config(kind(s, 0))
    &&& named(s, 1, "interaction") && is_table_commitment_config(kind(s, 1))
}

pub open spec fn is_fri_config(s: Schema) -> bool {
    &&& is_record(s, 5)
    &&& felt_field(s, 0, "log_input_size")
    &&& felt_field(s, 1, "n_layers")
    &&& named(s, 2, "inner_layers") && kind(s, 2) is List && is_table_commitment_config(item(kind(s, 2)))
    &&& felt_list_field(s, 3, "fri_step_sizes")
    &&& felt_field(s, 4, "log_last_layer_degree_bound")
}

pub open spec fn is_stark_config(s: Schema) -> bool {
    &&& is_record(s, 8)
    &&& named(s, 0, "traces") && is_traces_config(kind(s, 0))
    &&& named(s, 1, "composition") && is_table_commitment_config(kind(s, 1))
    &&& named(s, 2, "fri") && is_fri_config(kind(s, 2))
    &&& named(s, 3, "proof_of_work") && is_record(kind(s, 3), 1) && felt_field(kind(s, 3), 0, "n_bits")
    &&& felt_field(s, 4, "log_trace_domain_size")
    &&& felt_field(s, 5, "n_queries")
    &&& felt_field(s, 6, "log_n_cosets")
    &&& felt_field(s, 7, "n_verifier_friendly_commitment_layers")
}

pub open spec fn is_segment_info(s: Schema) -> bool {
    is_record(s, 2) && felt_field(s, 0, "begin_addr") && felt_field(s, 1, "stop_ptr")
}

pub open spec fn is_addr_value(s: Schema) -> bool {
    is_record(s, 2) && felt_field(s, 0, "address") && felt_field(s, 1, "value")
}

pub open spec fn is_continuous_page_header(s: Schema) -> bool {
    &&& is_record(s, 4)
    &&& felt_field(s, 0, "start_address")
    &&& felt_field(s, 1, "size")
    &&& felt_field(s, 2, "hash")
    &&& felt_field(s, 3, "prod")
}

pub open spec fn is_public_input(s: Schema) -> bool {
    &&& is_record(s, 10)
    &&& felt_field(s, 0, "log_n_steps")
    &&& felt_field(s, 1, "range_check_min")
    &&& felt_field(s, 2, "range_check_max")
    &&& felt_field(s, 3, "layout")
    &&& felt_list_field(s, 4, "dynamic_params")
    &&& named(s, 5, "segments") && kind(s, 5) is List && is_segment_info(item(kind(s, 5)))
    &&& felt_field(s, 6, "padding_addr")
    &&& felt_field(s, 7, "padding_value")
    &&& named(s, 8, "main_page") && kind(s, 8) is List && is_addr_value(item(kind(s, 8)))
    &&& named(s, 9, "continuous_page_headers") && kind(s, 9) is List
        && is_continuous_page_header(item(kind(s, 9)))
}

pub open spec fn is_unsent_commitment(s: Schema) -> bool {
    &&& is_record(s, 5)
    &&& named(s, 0, "traces") && is_record(kind(s, 0), 2) && felt_field(kind(s, 0), 0, "original")
        && felt_field(kind(s, 0), 1, "interaction")
    &&& felt_field(s, 1, "composition")
    &&& felt_list_field(s, 2, "oods_values")
    &&& named(s, 3, "fri") && is_record(kind(s, 3), 2) && felt_list_field(kind(s, 3), 0, "inner_layers")
        && felt_list_field(kind(s, 3), 1, "last_layer_coefficients")
    &&& named(s, 4, "proof_of_work") && is_record(kind(s, 4), 1) && felt_field(kind(s, 4), 0, "nonce")
}

pub open spec fn is_table_decommitment(s: Schema) -> bool {
    is_record(s, 1) && felt_list_field(s, 0, "values")
}

pub open spec fn is_table_commitment_witness(s: Schema) -> bool {
    &&& is_record(s, 1)
    &&& named(s, 0, "vector") && is_record(kind(s, 0), 1) && felt_list_field(kind(s, 0), 0, "authentications")
}

pub open spec fn is_fri_layer_witness(s: Schema) -> bool {
    &&& is_record(s, 2)
    &&& felt_list_field(s, 0, "leaves")
    &&& named(s, 1, "table_witness") && is_table_commitment_witness(kind(s, 1))
}

pub open spec fn is_stark_witness(s: Schema) -> bool {
    &&& is_record(s, 5)
    &&& named(s, 0, "traces_decommitment") && is_record(kind(s, 0), 2)
        && named(kind(s, 0), 0, "original") && is_table_decommitment(kind(kind(s, 0), 0))
        && named(kind(s, 0), 1, "interaction") && is_table_decommitment(kind(kind(s, 0), 1))
    &&& named(s, 1, "traces_witness") && is_record(kind(s, 1), 2)
        && named(kind(s, 1), 0, "original") && is_table_commitment_witness(kind(kind(s, 1), 0))
        && named(kind(s, 1), 1, "interaction") && is_table_commitment_witness(kind(kind(s, 1), 1))
    &&& named(s, 2, "composition_decommitment") && is_table_decommitment(kind(s, 2))
    &&& named(s, 3, "composition_witness") && is_table_commitment_witness(kind(s, 3))
    &&& named(s, 4, "fri_witness") && is_record(kind(s, 4), 1) && named(kind(s, 4), 0, "layers")
        && kind(kind(s, 4), 0) is List && is_fri_layer_witness(item(kind(kind(s, 4), 0)))
}

/// The verifier's proof object: its keys and the shape under each, in order.
pub open spec fn is_stark_proof(s: Schema) -> bool {
    &&& is_record(s, 4)
    &&& named(s, 0, "config") && is_stark_config(kind(s, 0))
    &&& named(s, 1, "public_input") && is_public_input(kind(s, 1))
    &&& named(s, 2, "unsent_commitment") && is_unsent_commitment(kind(s, 2))
    &&& named(s, 3, "witness") && is_stark_witness(kind(s, 3))
}

/// The verifier configuration: four field elements, in order.
pub open spec fn is_verifier_configuration(s: Schema) -> bool {
    &&& is_record(s, 4)
    &&& felt_field(s, 0, "layout")
    &&& felt_field(s, 1, "hasher")
    &&& felt_field(s, 2, "stone_version")
    &&& felt_field(s, 3, "memory_verification")
}

fn felt() -> (r: Schema)
    ensures
        r == Schema::Felt,
{
    Schema::Felt
}

fn list(item: Schema) -> (r: Schema)
    ensures
        r == Schema::List(Box::new(item)),
{
    Schema::List(Box::new(item))
}

fn field(name: &str, kind: Schema) -> (r: SchemaField)
    ensures
        r.name@ == name.spec_bytes(),
        r.kind == kind,
{
    SchemaField { name: name.as_bytes_vec(), kind }
}

fn record(fields: Vec<SchemaField>) -> (r: Schema)
    ensures
        r == Schema::Record(fields),
{
    Schema::Record(fields)
}

/// Commitment layout of a vector: its height and the number of layers that
/// use the verifier-friendly hash.
fn vector_commitment_config() -> (r: Schema)
    ensures
        is_vector_commitment_config(r),
{
    record(vec![field("height", felt()), field("n_verifier_friendly_commitment_layers", felt())])
}

fn table_commitment_config() -> (r: Schema)
    ensures
        is_table_commitment_config(r),
{
    record(vec![field("n_columns", felt()), field("vector", vector_commitment_config())])
}

fn traces_config() -> (r: Schema)
    ensures
        is_traces_config(r),
{
    record(vec![field("original", table_commitment_config()), field("interaction", table_commitment_config())])
}

fn fri_config() -> (r: Schema)
    ensures
        is_fri_config(r),
{
    record(
        vec![
            field("log_input_size", felt()),
            field("n_layers", felt()),
            field("inner_layers", list(table_commitment_config())),
            field("fri_step_sizes", list(felt())),
            field("log_last_layer_degree_bound", felt()),
        ],
    )
}

fn stark_config() -> (r: Schema)
    ensures
        is_stark_config(r),
{
    record(
        vec![
            field("traces", traces_config()),
            field("composition", table_commitment_config()),
            field("fri", fri_config()),
            field("proof_of_work", record(vec![field("n_bits", felt())])),
            field("log_trace_domain_size", felt()),
            field("n_queries", felt()),
            field("log_n_cosets", felt()),
            field("n_verifier_friendly_commitment_layers", felt()),
        ],
    )
}

fn segment_info() -> (r: Schema)
    ensures
        is_segment_info(r),
{
    record(vec![field("begin_addr", felt()), field("stop_ptr", felt())])
}

fn addr_value() -> (r: Schema)
    ensures
        is_addr_value(r),
{
    record(vec![field("address", felt()), field("value", felt())])
}

fn continuous_page_header() -> (r: Schema)
    ensures
        is_continuous_page_header(r),
{
    record(
        vec![
            field("start_address", felt()),
            field("size", felt()),
            field("hash", felt()),
            field("prod", felt()),
        ],
    )
}

fn public_input() -> (r: Schema)
    ensures
        is_public_input(r),
{
    record(
        vec![
            field("log_n_steps", felt()),
            field("range_check_min", felt()),
            field("range_check_max", felt()),
            field("layout", felt()),
            field("dynamic_params", list(felt())),
            field("segments", list(segment_info())),
            field("padding_addr", felt()),
            field("padding_value", felt()),
            field("main_page", list(addr_value())),
            field("continuous_page_headers", list(continuous_page_header())),
        ],
    )
}

fn unsent_commitment() -> (r: Schema)
    ensures
        is_unsent_commitment(r),
{
    record(
        vec![
            field("traces", record(vec![field("original", felt()), field("interaction", felt())])),
            field("composition", felt()),
            field("oods_values", list(felt())),
            field(
                "fri",
                record(
                    vec![
                        field("inner_layers", list(felt())),
                        field("last_layer_coefficients", list(felt())),
                    ],
                ),
            ),
            field("proof_of_work", record(vec![field("nonce", felt())])),
        ],
    )
}

fn table_decommitment() -> (r: Schema)
    ensures
        is_table_decommitment(r),
{
    record(vec![field("values", list(felt()))])
}

fn table_commitment_witness() -> (r: Schema)
    ensures
        is_table_commitment_witness(r),
{
    record(vec![field("vector", record(vec![field("authentications", list(felt()))]))])
}

fn fri_layer_witness() -> (r: Schema)
    ensures
        is_fri_layer_witness(r),
{
    record(vec![field("leaves", list(felt())), field("table_witness", table_commitment_witness())])
}

fn stark_witness() -> (r: Schema)
    ensures
        is_stark_witness(r),
{
    record(
        vec![
            field(
                "traces_decommitment",
                record(vec![field("original", table_decommitment()), field("interaction", table_decommitment())]),
            ),
            field(
                "traces_witness",
                record(
                    vec![
                        field("original", table_commitment_witness()),
                        field("interaction", table_commitment_witness()),
                    ],
                ),
            ),
            field("composition_decommitment", table_decommitment()),
            field("composition_witness", table_commitment_witness()),
            field("fri_witness", record(vec![field("layers", list(fri_layer_witness()))])),
        ],
    )
}

/// The verifier's proof object: configuration, public input, unsent
/// commitment and witness, in that order.
pub fn stark_proof_schema() -> (r: Schema)
    ensures
        is_stark_proof(r),
{
    record(
        vec![
            field("config", stark_config()),
            field("public_input", public_input()),
            field("unsent_commitment", unsent_commitment()),
            field("witness", stark_witness()),
        ],
    )
}

/// The verifier configuration: proof layout, hash choice, prover version
/// tag and memory verification mode, each a field element.
pub fn verifier_configuration_schema() -> (r: Schema)
    ensures
        is_verifier_configuration(r),
{
    record(
        vec![
            field("layout", felt()),
            field("hasher", felt()),
            field("stone_version", felt()),
            field("memory_verification", felt()),
        ],
    )
}

} // verus!
