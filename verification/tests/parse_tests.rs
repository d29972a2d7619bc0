use fumen::enums::BlockType;
use fumen::error::ErrorKind;
use fumen::page::Page;
use fumen::parse;

#[test]
fn test() {
    parse("v115@vhAAgH").unwrap();
}

#[test]
fn test2() {
    parse("v115@xgRpHeRpIewhglBeQ4AeywAewhglBtR4g0wwBewhhl?BtQ4i0AewhJeAgWBARAAAASgglQ4HeglR4Cewhh0AehlQ4w?wBewhg0CezwAewhg0AtBeywRpwhBtCeQ4g0RpwhAtSpAeQ4?g0BtxhglQpBeQ4h0BtwhilAeQ4JeAAPBASAAAA0fhlwhBeR?4CeAtglwhAeR4CeBtglwhAeg0RpBeAtg0xhAeg0RpCeg0xh?h0wwQ4hlAeh0whQpxwQ4glEeRpwwQ4glAtDeQpxwQ4BtEex?wAeAtieAAPCAzxAAAUfAtg0glQ4EeBtg0glR4DeAth0hlQ4?EeRph0Q4whAexhAeRpAtg0Q4yhCeBtg0Q4whglxwBeAtBeQ?4whglxwFehlQpHeRpIeQpYewwHexwIewwKeAAPCA0xAAAUf?R4BtEeR4glg0BtDeili0EeQawSg0whA8whAeB8APQawSg0y?hB8AeAPgHglh0xhC8AewSwwDeA8CexSCeQ4BeC8AACeQ4Ce?A8AeBABeQ4CeB8AeAAIeBAFeC8wSGeA8wwwSGeB8wwKeAAP?EA0B25AJfRpAeAtFeRpBtFeh0AtglQ4Eeg0ilR4Deg0xhBt?Q4AewhBexhg0glBtAewhBei0ilAewhCexwCeQ4whCexwCeQ?4IeQ4IeQ4jewwHeywKeAAPCA1xAAAreBtIeBtGeRph0FeRp?g0hlEexwg0AtglEexwBtglAeQ4CehlAtg0whAeR4Begli0y?hQ4BeglDexhQ4HewhQ4HewhQ4IeQ4rewwIexwHewwQpLeAA?PCA2xAAA/eBtIeBtGexwhlFexwglh0GeglAeg0Ieg0AewhI?exhHeQ4whHeQ4IeQ4IeQ42eRpLeAAA/eBAIeBAGeDAFeEAE?eEAEeCARLwhAAAeh0CARLwhBAg0AeBAiHwDwSAAg0AtBAgH?BewDxSBtCACewSQaAtA8BeAADeQaQ4B8CADeQaAeA8AeBAE?eC8CAEeB8BeAAEeC8BAFeA8BeAAKeAAPCATzAAADfAtHeBt?HeAtglg0Feilg0Dezhh0EeRpxwR4AehlAeRpxwS4glCei0Q?4QpQ4glAtBeg0BeQ4RpBtFeQpwhAtHexhIewhYewwHexwIe?wwKeAAPCAUzAAADfAtHeBtHeAthlFeh0hlDeyhwShlEeRpA?tg0glQ4AeB8AeQpwhh0glR4A8AeRaR4hlA8Q4B8AewSwwCe?whA8CexSCexhAeC8AADewhBeA8AeBAFeB8AeAAIeBAFeC8w?SGeA8wwwSGeB8wwKeAAPEAUD25A6eg0Ieg0Heh0EeBtAehl?EeQ4CtglEeR4BtglDeRpQ4Ath0AewhBeRpilg0AewhBeT4g?lg0AewhCexwCexhCexwCexhIewhsewwHeywKeAAPCAVzAAA?weAtGeglBtEeilAtglEeRph0glEeRpg0hlEeBti0Q4DewhB?tAeg0R4CexhBeg0whQ4BexwwhCewhQ4BexwDewhQ4HewhQ4?IeQ4rewwIexwHewwQpLeAAPCAWzAAAEfAtGeg0BtEei0AtF?exwhlFexwglIeglBewhIexhHeQ4whHeQ4IeQ4IeQ42eRpLe?AAAEfAAGeCAEeEAEeEAEeEAEeFADeGACeGABeHABeHABeHA?CeIAAeHACeHABeHACeHAAeDAJeAAPQClPBBC5sDfE2CqHBl?vs2A2HEfEWbdzBl/3RBjJEfEV75ABlvs2AY0DfETYOwBlP5?2BxpDfEToXOBlvs2AWoDfEToH6AlvV6BUuDfETIEBClvs2A?YuDfEToHVBlvs2AUuDfETYdzBlvs2AYrDfEToXOBlvs2A4E?EfETIs9Blvs2AVDEfEToABB").unwrap();
}

#[test]
fn test3() {
    parse("v115@vhAhPJ").unwrap();
}

#[test]
fn smoke_parses_yield_pages() {
    let first = parse("v115@vhAAgH").unwrap();
    assert_eq!(first.version, 115);
    assert!(!first.pages.is_empty());
    let second = parse("v115@vhAhPJ").unwrap();
    assert_eq!(second.version, 115);
    assert!(!second.pages.is_empty());
}

#[test]
fn every_parsed_field_has_240_cells() {
    let fumen = parse("v115@vhAAgH").unwrap();
    for page in &fumen.pages {
        assert_eq!(page.field.0.len(), 240);
    }
    let long = parse("v115@xgRpHeRpIewhglBeQ4AeywAewhglBtR4g0wwBewhhl?BtQ4i0AewhJeAgWBARAAAASgglQ4HeglR4Cewhh0AehlQ4w?wBewhg0CezwAewhg0AtBeywRpwhBtCeQ4g0RpwhAtSpAeQ4?g0BtxhglQpBeQ4h0BtwhilAeQ4JeAAPBASAAAA0fhlwhBeR?4CeAtglwhAeR4CeBtglwhAeg0RpBeAtg0xhAeg0RpCeg0xh?h0wwQ4hlAeh0whQpxwQ4glEeRpwwQ4glAtDeQpxwQ4BtEex?wAeAtieAAPCAzxAAAUfAtg0glQ4EeBtg0glR4DeAth0hlQ4?EeRph0Q4whAexhAeRpAtg0Q4yhCeBtg0Q4whglxwBeAtBeQ?4whglxwFehlQpHeRpIeQpYewwHexwIewwKeAAPCA0xAAAUf?R4BtEeR4glg0BtDeili0EeQawSg0whA8whAeB8APQawSg0y?hB8AeAPgHglh0xhC8AewSwwDeA8CexSCeQ4BeC8AACeQ4Ce?A8AeBABeQ4CeB8AeAAIeBAFeC8wSGeA8wwwSGeB8wwKeAAP?EA0B25AJfRpAeAtFeRpBtFeh0AtglQ4Eeg0ilR4Deg0xhBt?Q4AewhBexhg0glBtAewhBei0ilAewhCexwCeQ4whCexwCeQ?4IeQ4IeQ4jewwHeywKeAAPCA1xAAAreBtIeBtGeRph0FeRp?g0hlEexwg0AtglEexwBtglAeQ4CehlAtg0whAeR4Begli0y?hQ4BeglDexhQ4HewhQ4HewhQ4IeQ4rewwIexwHewwQpLeAA?PCA2xAAA/eBtIeBtGexwhlFexwglh0GeglAeg0Ieg0AewhI?exhHeQ4whHeQ4IeQ4IeQ42eRpLeAAA/eBAIeBAGeDAFeEAE?eEAEeCARLwhAAAeh0CARLwhBAg0AeBAiHwDwSAAg0AtBAgH?BewDxSBtCACewSQaAtA8BeAADeQaQ4B8CADeQaAeA8AeBAE?eC8CAEeB8BeAAEeC8BAFeA8BeAAKeAAPCATzAAADfAtHeBt?HeAtglg0Feilg0Dezhh0EeRpxwR4AehlAeRpxwS4glCei0Q?4QpQ4glAtBeg0BeQ4RpBtFeQpwhAtHexhIewhYewwHexwIe?wwKeAAPCAUzAAADfAtHeBtHeAthlFeh0hlDeyhwShlEeRpA?tg0glQ4AeB8AeQpwhh0glR4A8AeRaR4hlA8Q4B8AewSwwCe?whA8CexSCexhAeC8AADewhBeA8AeBAFeB8AeAAIeBAFeC8w?SGeA8wwwSGeB8wwKeAAPEAUD25A6eg0Ieg0Heh0EeBtAehl?EeQ4CtglEeR4BtglDeRpQ4Ath0AewhBeRpilg0AewhBeT4g?lg0AewhCexwCexhCexwCexhIewhsewwHeywKeAAPCAVzAAA?weAtGeglBtEeilAtglEeRph0glEeRpg0hlEeBti0Q4DewhB?tAeg0R4CexhBeg0whQ4BexwwhCewhQ4BexwDewhQ4HewhQ4?IeQ4rewwIexwHewwQpLeAAPCAWzAAAEfAtGeg0BtEei0AtF?exwhlFexwglIeglBewhIexhHeQ4whHeQ4IeQ4IeQ42eRpLe?AAAEfAAGeCAEeEAEeEAEeEAEeFADeGACeGABeHABeHABeHA?CeIAAeHACeHABeHACeHAAeDAJeAAPQClPBBC5sDfE2CqHBl?vs2A2HEfEWbdzBl/3RBjJEfEV75ABlvs2AY0DfETYOwBlP5?2BxpDfEToXOBlvs2AWoDfEToH6AlvV6BUuDfETIEBClvs2A?YuDfEToHVBlvs2AUuDfETYdzBlvs2AYrDfEToXOBlvs2A4E?EfETIs9Blvs2AVDEfEToABB").unwrap();
    for page in &long.pages {
        assert_eq!(page.field.0.len(), 240);
    }
}

#[test]
fn first_page_of_empty_diagram_is_all_empty() {
    let fumen = parse("v115@vhAAgH").unwrap();
    assert_eq!(fumen.pages.len(), 1);
    for cell in &fumen.pages[0].field.0 {
        assert_eq!(*cell, BlockType::Empty);
    }
}

#[test]
fn page_decode_consumes_whole_payload() {
    let mut offset = 0usize;
    let mut repeat_count = 0usize;
    let page = Page::decode("vhAAgH", &mut offset, None, &mut repeat_count).unwrap();
    assert_eq!(offset, 6);
    assert_eq!(repeat_count, 0);
    assert_eq!(page.comment, "");
}

#[test]
fn repeat_count_reuses_previous_field() {
    let fumen = parse("v115@vhBAgHAgH").unwrap();
    assert_eq!(fumen.pages.len(), 2);
    assert_eq!(fumen.pages[0].field.0, fumen.pages[1].field.0);
}

#[test]
fn empty_payload_yields_no_pages() {
    let fumen = parse("v115@").unwrap();
    assert_eq!(fumen.version, 115);
    assert!(fumen.pages.is_empty());
}

#[test]
fn question_marks_are_stripped_before_decoding() {
    let plain = parse("v115@vhAAgH").unwrap();
    let padded = parse("v115@vh?AA?gH").unwrap();
    assert_eq!(plain.pages.len(), padded.pages.len());
    assert_eq!(plain.pages[0].field.0, padded.pages[0].field.0);
}

#[test]
fn missing_at_reports_malformed_header() {
    let err = parse("abc").unwrap_err();
    assert_eq!(err.kind, ErrorKind::MalformedHeader);
    assert_eq!(err.page, 0);
    assert_eq!(err.offset, 0);
}

#[test]
fn bad_version_reports_invalid_version() {
    let err = parse("vvvv@AA").unwrap_err();
    assert_eq!(err.kind, ErrorKind::InvalidVersion);
}

#[test]
fn foreign_symbol_reports_invalid_symbol() {
    let err = parse("v115@!A").unwrap_err();
    assert_eq!(err.kind, ErrorKind::InvalidSymbol);
    assert_eq!(err.page, 0);
    assert_eq!(err.offset, 0);
}

#[test]
fn out_of_range_cell_reports_invalid_discriminant() {
    let err = parse("v115@AA").unwrap_err();
    assert_eq!(err.kind, ErrorKind::InvalidDiscriminant);
    assert_eq!(err.page, 0);
    assert_eq!(err.offset, 2);
}

#[test]
fn truncated_payload_reports_offset_overrun() {
    let err = parse("v115@A").unwrap_err();
    assert_eq!(err.kind, ErrorKind::OffsetOverrun);
    assert_eq!(err.page, 0);
    assert_eq!(err.offset, 0);
}

#[test]
fn comment_flag_attaches_comment_to_page() {
    let fumen = parse("v115@vhAAgWDABUYCA").unwrap();
    assert_eq!(fumen.pages.len(), 1);
    assert_eq!(fumen.pages[0].comment, "abc");
}
