use saforia::backup::{export_to_csv, import_csv_apply, preview_csv, CsvMapping};
use saforia::store::{EntriesFile, Entry};

fn entry(id: &str, created_at: u64, order: i64, fingerprint: Option<&str>) -> Entry {
    Entry {
        id: id.to_string(),
        label: format!("L {}", id),
        postfix: format!("p-{}", id),
        method_id: "len20".to_string(),
        created_at,
        order,
        fingerprint: fingerprint.map(|s| s.to_string()),
    }
}

fn mapping(pairs: &[(&str, Option<&str>)]) -> Vec<CsvMapping> {
    pairs
        .iter()
        .map(|(from, to)| CsvMapping { from: from.to_string(), to: to.map(|s| s.to_string()) })
        .collect()
}

fn strs(v: &[&str]) -> Vec<String> {
    v.iter().map(|s| s.to_string()).collect()
}

const HEADER: &str = "fingerprint,label,postfix,method_id,created_at,id";

#[test]
fn export_writes_header_and_rows_in_listing_order() {
    let all = EntriesFile {
        entries: vec![
            entry("a", 100, 0, Some("fp1")),
            entry("b", 200, 0, None),
            entry("c", 5, 1, Some("fp2")),
        ],
    };
    assert_eq!(
        export_to_csv(&all),
        "fingerprint,label,postfix,method_id,created_at,id\n\
         fp2,L c,p-c,len20,5,c\n\
         ,L b,p-b,len20,200,b\n\
         fp1,L a,p-a,len20,100,a\n"
    );
    assert_eq!(export_to_csv(&EntriesFile { entries: vec![] }), format!("{}\n", HEADER));
}

#[test]
fn export_does_not_quote() {
    let mut e = entry("a", 0, 0, None);
    e.label = "say \"hi\"".to_string();
    let all = EntriesFile { entries: vec![e] };
    assert_eq!(
        export_to_csv(&all),
        format!("{}\n,say \"hi\",p-a,len20,0,a\n", HEADER)
    );
}

#[test]
fn preview_counts_rows_by_source_fingerprint() {
    let data = format!(
        "{}\nfp2,l,p,m,1,a\n fp1 ,l,p,m,2,b\nfp2,l,p,m,3,c\n,l,p,m,4,d\nshort,row\n\nfp1,l,p,m,x,e,extra\n",
        HEADER
    );
    let preview = preview_csv(&data);
    assert_eq!(
        preview.fingerprints,
        vec![("".to_string(), 1usize), ("fp1".to_string(), 2), ("fp2".to_string(), 2)]
    );
    assert_eq!(preview_csv("").fingerprints, vec![]);
    assert_eq!(preview_csv(HEADER).fingerprints, vec![]);
    // the first line is the header, whatever it holds
    assert_eq!(preview_csv("fp,l,p,m,1,a\n").fingerprints, vec![]);
}

#[test]
fn import_drops_short_rows_and_unmapped_fingerprints() {
    let data = format!(
        "{}\nold1,Mail,mail,len20,17,id1\nold2,Bank,bank,len36_strong,18,id2\nbad,row,with,five,fields\nold3,X,x,len1,19,id3\nold4,Y,y,len1,20,id4\n  old1\t,Shop,shop,legacy_v1,notanumber,id5,more,fields\n",
        HEADER
    );
    let mut all = EntriesFile { entries: vec![] };
    let n = import_csv_apply(
        &mut all,
        &data,
        mapping(&[("old1", Some("new1")), ("old2", None), ("old3", Some("unknown"))]),
        false,
        &strs(&["new1"]),
    );
    assert_eq!(n, 2);
    assert_eq!(
        all.entries,
        vec![
            Entry {
                id: "id1".to_string(),
                label: "Mail".to_string(),
                postfix: "mail".to_string(),
                method_id: "len20".to_string(),
                created_at: 17,
                order: 0,
                fingerprint: Some("new1".to_string()),
            },
            Entry {
                id: "id5".to_string(),
                label: "Shop".to_string(),
                postfix: "shop".to_string(),
                method_id: "legacy_v1".to_string(),
                created_at: 0,
                order: 0,
                fingerprint: Some("new1".to_string()),
            },
        ]
    );
}

#[test]
fn import_maps_unbound_rows_by_the_empty_fingerprint() {
    let data = format!("{}\n,a,b,c,1,id1\r\n ,a,b,c,2,id2\r\n", HEADER);
    let mut all = EntriesFile { entries: vec![entry("keep", 1, 0, None)] };
    let n = import_csv_apply(&mut all, &data, mapping(&[("", Some("v"))]), true, &strs(&["v"]));
    assert_eq!(n, 2);
    assert_eq!(all.entries.len(), 2);
    assert_eq!(all.entries[0].id, "id1");
    assert_eq!(all.entries[1].id, "id2");
    assert_eq!(all.entries[1].fingerprint, Some("v".to_string()));
}

#[test]
fn import_merges_without_duplicates() {
    let data = format!("{}\nf,a,b,c,1,dup\nf,a,b,c,2,new\nf,a,b,c,3,new\n", HEADER);
    let mut all = EntriesFile { entries: vec![entry("dup", 1, 0, None)] };
    let n = import_csv_apply(&mut all, &data, mapping(&[("f", Some("v"))]), false, &strs(&["v"]));
    assert_eq!(n, 1);
    assert_eq!(all.entries.len(), 2);
    assert_eq!(all.entries[1].id, "new");
    assert_eq!(all.entries[1].created_at, 2);
}

#[test]
fn export_then_import_keeps_the_fields() {
    let all = EntriesFile {
        entries: vec![entry("a", 100, 0, Some("fp1")), entry("b", 200, 0, None)],
    };
    let text = export_to_csv(&all);
    let mut back = EntriesFile { entries: vec![] };
    let n = import_csv_apply(
        &mut back,
        &text,
        mapping(&[("fp1", Some("fp1")), ("", Some("fp1"))]),
        true,
        &strs(&["fp1"]),
    );
    assert_eq!(n, 2);
    assert_eq!(back.entries[0], entry("b", 200, 0, Some("fp1")));
    assert_eq!(back.entries[1], entry("a", 100, 0, Some("fp1")));
}
