//! Laws that relate several conversions, proved from the conversion
//! functions' contracts alone.

use vstd::prelude::*;
use crate::error::FormatError;
use crate::format::convert_post;
use crate::format::FileFormat;
use crate::formats::csv::build_record;
use crate::formats::csv::csv_parse_ok;
use crate::formats::csv::csv_records_of;
use crate::formats::csv::csv_records_spec;
use crate::formats::csv::infer_spec;
use crate::formats::csv::lemma_build_record_keys;
use crate::formats::csv::lemma_build_record_sorted;
use crate::formats::csv::lemma_build_record_values;
use crate::formats::csv::lemma_flat_scalars;
use crate::formats::csv::lemma_headers_fold_same;
use crate::formats::csv::lemma_infer_leaf;
use crate::formats::csv::lemma_infer_scalar;
use crate::formats::csv::lemma_keys_union_ascending;
use crate::formats::csv::obj_keys;
use crate::formats::csv::obj_pairs;
use crate::formats::csv::record_val;
use crate::formats::csv::strictly_sorted_list;
use crate::formats::csv::zip_record;
use crate::formats::utils::csv_export_rows;
use crate::formats::utils::csv_out_post;
use crate::formats::utils::flat_extend;
use crate::formats::utils::flat_of;
use crate::formats::utils::flats_of;
use crate::formats::utils::headers_fold;
use crate::formats::utils::leaf_text;
use crate::formats::utils::row_of;
use crate::outside::csv_rows_of;
use crate::outside::csv_text_of;
use crate::outside::json_doc_of;
use crate::outside::lemma_val_arr_unfold;
use crate::outside::lemma_val_obj_unfold;
use crate::outside::val_floats_stable;
use crate::strutil::first_nonblank_comma_spec;
use crate::strutil::no_line_breaks;
use crate::value::lemma_obj_lookup_index;
use crate::value::obj_lookup;
use crate::value::strictly_sorted_keys;
use crate::value::Val;

verus! {

/// Converting JSON to JSON is idempotent: feeding a successful output
/// through the same conversion succeeds and returns it byte for byte.
pub proof fn lemma_convert_identity_json(
    input: Seq<char>,
    u: String,
    r2: Result<String, FormatError>,
)
    requires
        convert_post(FileFormat::Json, FileFormat::Json, input, Result::Ok(u)),
        convert_post(FileFormat::Json, FileFormat::Json, u@, r2),
    ensures
        r2 matches Ok(w) && w@ == u@,
{
}

/// Converting YAML to YAML is idempotent: feeding a successful output
/// through the same conversion succeeds and returns it byte for byte, for
/// every input whose document image exists and is break-free. A document
/// with no JSON image, or with a raw Unicode line break inside a string
/// (which the emitter writes raw and the parser folds to a space), is
/// excluded.
pub proof fn lemma_convert_identity_yaml(
    input: Seq<char>,
    u: String,
    r2: Result<String, FormatError>,
)
    requires
        convert_post(FileFormat::Yaml, FileFormat::Yaml, input, Result::Ok(u)),
        crate::outside::yaml_doc_of(input) is Some,
        crate::outside::val_yaml_clean(crate::outside::yaml_doc_of(input)->0),
        convert_post(FileFormat::Yaml, FileFormat::Yaml, u@, r2),
    ensures
        r2 matches Ok(w) && w@ == u@,
{
}

/// Converting TOML to TOML is idempotent: feeding a successful output
/// through the same conversion succeeds and returns it byte for byte, for
/// every document within the nesting bound. A deeper document — dotted
/// keys allow up to eighty segments each — can print a header longer than
/// the parser's per-key cap, and is excluded.
pub proof fn lemma_convert_identity_toml(
    input: Seq<char>,
    u: String,
    r2: Result<String, FormatError>,
)
    requires
        convert_post(FileFormat::Toml, FileFormat::Toml, input, Result::Ok(u)),
        crate::outside::val_depth_le(crate::outside::toml_doc_of(input)->0, 40),
        convert_post(FileFormat::Toml, FileFormat::Toml, u@, r2),
    ensures
        r2 matches Ok(w) && w@ == u@,
{
}

/// Same-format conversion succeeds on every input its format accepts:
/// parse plus re-serialize never fails on valid input.
pub proof fn lemma_identity_succeeds(
    t: FileFormat,
    input: Seq<char>,
    r: Result<String, FormatError>,
)
    requires
        convert_post(t, t, input, r),
        match t {
            FileFormat::Json => json_doc_of(input) is Some,
            FileFormat::Toml => crate::outside::toml_doc_of(input) is Some,
            FileFormat::Yaml => crate::outside::yaml_wf(input),
            FileFormat::Csv => csv_parse_ok(input),
        },
    ensures
        r is Ok,
{
}

/// Converting CSV to CSV stabilizes after one application: feeding a
/// successful output through the conversion again succeeds and returns it
/// byte for byte, for every input that leaves at least one record and two
/// columns whose header keys carry no line breaks. (A lone column or a
/// header key with an embedded newline makes the re-parse's comma
/// pre-check fail, in this library as in its output format.)
pub proof fn lemma_convert_identity_csv(
    input: Seq<char>,
    u: String,
    r2: Result<String, FormatError>,
)
    requires
        convert_post(FileFormat::Csv, FileFormat::Csv, input, Result::Ok(u)),
        csv_records_of(input).len() > 0,
        csv_export_rows(csv_records_of(input))[0].len() >= 2,
        forall|j: int|
            0 <= j < csv_export_rows(csv_records_of(input))[0].len() ==> no_line_breaks(
                #[trigger] csv_export_rows(csv_records_of(input))[0][j],
            ),
        convert_post(FileFormat::Csv, FileFormat::Csv, u@, r2),
    ensures
        r2 matches Ok(w) && w@ == u@,
{
    let recs = csv_records_of(input);
    assert(csv_parse_ok(input));
    let rows0 = csv_rows_of(input)->0;
    let flats = flats_of(recs);
    let hs = headers_fold(Seq::<Seq<char>>::empty(), flats);
    let rows1 = csv_export_rows(recs);
    assert(rows1[0] == hs);
    assert(rows1.len() == 1 + recs.len());
    assert(flats.len() == recs.len());

    // what the first conversion promised of its output
    assert(u@ == csv_text_of(rows1));
    assert(hs.len() >= 2);
    assert(csv_rows_of(u@) == Some(rows1));
    assert(first_nonblank_comma_spec(u@) == Some(true));
    assert(csv_parse_ok(u@));
    assert(val_floats_stable(Val::Arr(recs)));
    lemma_val_arr_unfold(recs);

    // the records are built over the original header, all of one width
    assert(rows0.len() > 0);
    assert(forall|t: int| 0 <= t < recs.len() ==> rows0.skip(1)[t] == rows0[t + 1]);
    assert(recs.len() == rows0.len() - 1);
    assert forall|t: int| 0 <= t < recs.len() implies #[trigger] recs[t] == record_val(
        rows0[0],
        rows0[t + 1],
    ) by {
        assert(recs[t] == record_val(rows0[0], rows0.skip(1)[t]));
    }
    assert(forall|t: int| 0 <= t < rows0.len() ==> (#[trigger] rows0[t]).len() == rows0[0].len());

    // every record carries the same strictly ascending key list
    let m0 = build_record(Seq::<(Seq<char>, Val)>::empty(), rows0[0], rows0[1]);
    let ks = obj_keys(m0);
    lemma_build_record_values(Seq::<(Seq<char>, Val)>::empty(), rows0[0], rows0[1]);
    assert(ks.len() == m0.len());
    assert(forall|i: int| 0 <= i < ks.len() ==> #[trigger] ks[i] == m0[i].0);
    assert(strictly_sorted_list(ks));
    assert forall|t: int| 0 <= t < recs.len() implies obj_keys(obj_pairs(#[trigger] recs[t]))
        == ks by {
        lemma_build_record_keys(
            Seq::<(Seq<char>, Val)>::empty(),
            Seq::<(Seq<char>, Val)>::empty(),
            rows0[0],
            rows0[t + 1],
            rows0[1],
        );
    }

    // per record: sortedness, scalar values, and the flat rendering
    assert forall|t: int| 0 <= t < recs.len() implies {
        let mt = obj_pairs(#[trigger] recs[t]);
        &&& strictly_sorted_keys(mt)
        &&& (forall|j: int| 0 <= j < mt.len() ==> !((#[trigger] mt[j]).1 is Obj))
        &&& flats[t] == mt.map_values(|p: (Seq<char>, Val)| (p.0, leaf_text(p.1)))
    } by {
        let mt = obj_pairs(recs[t]);
        lemma_build_record_values(Seq::<(Seq<char>, Val)>::empty(), rows0[0], rows0[t + 1]);
        assert forall|j: int| 0 <= j < mt.len() implies !((#[trigger] mt[j]).1 is Obj) by {
            let x = choose|x: int|
                0 <= x < rows0[t + 1].len() && mt[j].1 == infer_spec(#[trigger] rows0[t + 1][x]);
            lemma_infer_scalar(rows0[t + 1][x]);
        }
        assert(flats[t] == flat_of(recs[t]));
        assert(flat_of(recs[t]) == flat_extend(
            Seq::<(Seq<char>, Seq<char>)>::empty(),
            Val::Obj(mt),
            Seq::<char>::empty(),
        ));
        lemma_flat_scalars(Seq::<(Seq<char>, Seq<char>)>::empty(), mt);
        assert(Seq::<(Seq<char>, Seq<char>)>::empty() + mt.map_values(
            |p: (Seq<char>, Val)| (p.0, leaf_text(p.1)),
        ) =~= mt.map_values(|p: (Seq<char>, Val)| (p.0, leaf_text(p.1))));
    }

    // the sorted union of all flat keys is exactly that key list
    assert(hs == ks) by {
        let fk0 = flats[0].map_values(|p: (Seq<char>, Seq<char>)| p.0);
        assert(forall|i: int| 0 <= i < flats[0].len() ==> (#[trigger] flats[0][i]).0 == ks[i]);
        lemma_keys_union_ascending(Seq::<Seq<char>>::empty(), flats[0]);
        assert(crate::formats::utils::keys_union(Seq::<Seq<char>>::empty(), flats[0]) =~= ks) by {
            assert(fk0.len() == ks.len());
            assert(forall|i: int| 0 <= i < fk0.len() ==> #[trigger] fk0[i] == ks[i]);
            assert(Seq::<Seq<char>>::empty() + fk0 =~= fk0);
            assert(fk0 =~= ks);
        }
        assert(forall|q: int| 0 <= q < flats.skip(1).len() ==> (#[trigger] flats.skip(1)[q])
            == flats[q + 1]);
        assert forall|t: int, i: int|
            0 <= t < flats.skip(1).len() && 0 <= i < flats.skip(1)[t].len() implies ks.contains(
            (#[trigger] flats.skip(1)[t][i]).0,
        ) by {
            assert(flats.skip(1)[t] == flats[t + 1]);
            assert(flats[t + 1][i].0 == obj_pairs(recs[t + 1])[i].0);
            assert(obj_keys(obj_pairs(recs[t + 1]))[i] == obj_pairs(recs[t + 1])[i].0);
            assert(ks[i] == flats.skip(1)[t][i].0);
        }
        lemma_headers_fold_same(ks, flats.skip(1));
        assert(headers_fold(Seq::<Seq<char>>::empty(), flats) == headers_fold(
            crate::formats::utils::keys_union(Seq::<Seq<char>>::empty(), flats[0]),
            flats.skip(1),
        ));
    }

    // the second parse rebuilds exactly the same records
    let recs2 = csv_records_of(u@);
    assert(recs2 == csv_records_spec(rows1));
    assert(forall|t: int| 0 <= t < recs.len() ==> rows1.skip(1)[t] == rows1[t + 1]);
    assert(recs2.len() == recs.len());
    assert forall|t: int| 0 <= t < recs.len() implies #[trigger] recs2[t] == recs[t] by {
        let mt = obj_pairs(recs[t]);
        let ft = flats[t];
        assert(recs2[t] == record_val(rows1[0], rows1.skip(1)[t]));
        assert(rows1[t + 1] == row_of(ft, hs));
        assert(rows1[t + 1].len() == hs.len());
        lemma_build_record_sorted(Seq::<(Seq<char>, Val)>::empty(), hs, rows1[t + 1]);
        let zt = zip_record(hs, rows1[t + 1]);
        assert(Seq::<(Seq<char>, Val)>::empty() + zt =~= zt);
        assert(recs2[t] == Val::Obj(zt));
        // the zip equals the record, pair by pair
        assert(obj_keys(mt) == ks);
        assert(mt.len() == ks.len());
        assert(forall|j: int| 0 <= j < mt.len() ==> (#[trigger] mt[j]).0 == ks[j]);
        assert(strictly_sorted_keys(ft)) by {
            assert(forall|j: int| 0 <= j < ft.len() ==> (#[trigger] ft[j]).0 == mt[j].0);
        }
        lemma_build_record_values(Seq::<(Seq<char>, Val)>::empty(), rows0[0], rows0[t + 1]);
        lemma_val_obj_unfold(mt);
        assert(val_floats_stable(recs[t]));
        assert forall|j: int| 0 <= j < hs.len() implies #[trigger] zt[j] == mt[j] by {
            assert(ft[j].0 == hs[j]);
            lemma_obj_lookup_index(ft, j);
            assert(obj_lookup(ft, hs[j]) == Some(ft[j].1));
            assert(ft[j].1 == leaf_text(mt[j].1));
            assert(rows1[t + 1][j] == leaf_text(mt[j].1));
            let v = mt[j].1;
            let x = choose|x: int|
                0 <= x < rows0[t + 1].len() && v == infer_spec(#[trigger] rows0[t + 1][x]);
            assert(val_floats_stable(v));
            if v is Float {
                assert(val_floats_stable(v) == match v {
                    Val::Float(ty) => crate::outside::float_text_of(ty) == Some(ty)
                        && crate::strutil::parse_i64_spec(ty) is None && ty.len() > 0
                        && crate::strutil::lower_seq(ty) != "true"@ && crate::strutil::lower_seq(
                        ty,
                    ) != "false"@,
                    _ => true,
                });
            }
            lemma_infer_leaf(rows0[t + 1][x], v);
            assert(zt[j] == (hs[j], infer_spec(rows1[t + 1][j])));
        }
        assert(zt =~= mt);
    }
    assert(recs2 =~= recs);

    // the second conversion succeeds and reproduces the text
    assert(csv_out_post(recs2, r2));
    assert(csv_export_rows(recs2) == rows1);
    assert(r2 is Ok);
}

/// The TOML to JSON round trip converts back, for documents within the
/// nesting bound: a TOML document's JSON image is an object at the root,
/// so converting a successful TOML-to-JSON output back to TOML succeeds;
/// and with finite floats the result is exactly the TOML text of the
/// document with nulls blanked.
pub proof fn lemma_toml_json_round_trip(
    input: Seq<char>,
    j: String,
    r2: Result<String, FormatError>,
)
    requires
        convert_post(FileFormat::Toml, FileFormat::Json, input, Result::Ok(j)),
        crate::outside::val_depth_le(crate::outside::toml_doc_of(input)->0, 40),
        convert_post(FileFormat::Json, FileFormat::Toml, j@, r2),
    ensures
        r2 is Ok,
        r2 matches Ok(w) ==> (crate::outside::val_floats_f64(crate::outside::toml_doc_of(input)->0)
            ==> w@ == crate::outside::toml_text_of(
            crate::formats::utils::toml_ready(crate::outside::toml_doc_of(input)->0),
        )),
{
    let v = crate::outside::toml_doc_of(input)->0;
    assert(v is Obj);
    assert(crate::formats::utils::wrap_root(v) == v);
}

/// The CSV to TOML round trip converts back: the records travel under the
/// sole `data` key, so the TOML side unwraps them, and the second
/// conversion exports exactly the original records with their nulls
/// blanked — the documented lossy TOML policy, nothing more.
pub proof fn lemma_csv_toml_round_trip(
    input: Seq<char>,
    t: String,
    r2: Result<String, FormatError>,
)
    requires
        convert_post(FileFormat::Csv, FileFormat::Toml, input, Result::Ok(t)),
        convert_post(FileFormat::Toml, FileFormat::Csv, t@, r2),
    ensures
        crate::formats::json::to_csv_value_post(
            crate::formats::utils::toml_ready(Val::Arr(csv_records_of(input))),
            "TOML must be an array or object"@,
            r2,
        ),
{
    let recs = csv_records_of(input);
    let wrapped = crate::formats::utils::wrap_root(Val::Arr(recs));
    let w = crate::formats::utils::toml_ready(wrapped);
    assert(crate::outside::toml_doc_of(t@) == Some(w));
    let pairs = seq![("data"@, Val::Arr(recs))];
    assert(wrapped == Val::Obj(pairs));
    crate::formats::utils::lemma_toml_ready_pairs_index(pairs);
    let rp = crate::formats::utils::toml_ready_pairs(pairs);
    assert(w == Val::Obj(rp));
    assert(rp.len() == 1);
    assert(rp[0] == ("data"@, crate::formats::utils::toml_ready(Val::Arr(recs))));
    assert(crate::formats::toml::unwrap_data(w) == crate::formats::utils::toml_ready(
        Val::Arr(recs),
    ));
}

/// The YAML to TOML round trip converts back, for documents of small depth
/// with finite floats: the built TOML text parses to the adapted document,
/// so converting it on to YAML succeeds and yields that document's YAML
/// text. The depth bound is the one under which the built TOML text is
/// known to re-parse.
pub proof fn lemma_yaml_toml_round_trip(
    input: Seq<char>,
    t: String,
    r2: Result<String, FormatError>,
)
    requires
        convert_post(FileFormat::Yaml, FileFormat::Toml, input, Result::Ok(t)),
        crate::outside::val_floats_f64(crate::outside::yaml_doc_of(input)->0),
        crate::outside::val_depth_le(
            crate::formats::utils::toml_ready(
                crate::formats::utils::wrap_root(crate::outside::yaml_doc_of(input)->0),
            ),
            4,
        ),
        convert_post(FileFormat::Toml, FileFormat::Yaml, t@, r2),
    ensures
        r2 matches Ok(y) && y@ == crate::outside::yaml_text_of(
            crate::formats::utils::toml_ready(
                crate::formats::utils::wrap_root(crate::outside::yaml_doc_of(input)->0),
            ),
        ),
{
    let v = crate::outside::yaml_doc_of(input)->0;
    let w = crate::formats::utils::toml_ready(crate::formats::utils::wrap_root(v));
    assert(crate::outside::toml_doc_of(t@) == Some(w));
}

/// The JSON to YAML to JSON round trip preserves the document, for every
/// break-free document: when the first conversion succeeds, converting
/// its output back succeeds, and the result parses to exactly the
/// original document, every key and value included. A document carrying a
/// raw Unicode line break inside a string is excluded: the YAML side
/// folds such breaks to spaces.
pub proof fn lemma_json_yaml_round_trip(
    input: Seq<char>,
    y: String,
    r2: Result<String, FormatError>,
)
    requires
        convert_post(FileFormat::Json, FileFormat::Yaml, input, Result::Ok(y)),
        crate::outside::val_yaml_clean(crate::outside::json_doc_of(input)->0),
        convert_post(FileFormat::Yaml, FileFormat::Json, y@, r2),
    ensures
        r2 matches Ok(w) && json_doc_of(w@) == json_doc_of(input),
        json_doc_of(input) is Some,
{
}

} // verus!
