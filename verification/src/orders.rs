//! The schema order of child elements, used to insert a new child where the
//! schema expects it.
use vstd::prelude::*;
use crate::text::str_eq;

verus! {

/// The schema position of a child of `worksheet` (1000 for unknown names).
pub open spec fn worksheet_child_order_spec(name: Seq<char>) -> i32 {
    if name == "sheetPr"@ {
        10
    } else if name == "dimension"@ {
        20
    } else if name == "sheetViews"@ {
        30
    } else if name == "sheetFormatPr"@ {
        40
    } else if name == "cols"@ {
        50
    } else if name == "sheetData"@ {
        60
    } else if name == "sheetCalcPr"@ {
        70
    } else if name == "sheetProtection"@ {
        80
    } else if name == "protectedRanges"@ {
        90
    } else if name == "scenarios"@ {
        100
    } else if name == "autoFilter"@ {
        110
    } else if name == "sortState"@ {
        120
    } else if name == "dataConsolidate"@ {
        130
    } else if name == "customSheetViews"@ {
        140
    } else if name == "mergeCells"@ {
        150
    } else if name == "phoneticPr"@ {
        160
    } else if name == "conditionalFormatting"@ {
        170
    } else if name == "dataValidations"@ {
        180
    } else if name == "hyperlinks"@ {
        190
    } else if name == "printOptions"@ {
        200
    } else if name == "pageMargins"@ {
        210
    } else if name == "pageSetup"@ {
        220
    } else if name == "headerFooter"@ {
        230
    } else if name == "rowBreaks"@ {
        240
    } else if name == "colBreaks"@ {
        250
    } else if name == "customProperties"@ {
        260
    } else if name == "cellWatches"@ {
        270
    } else if name == "ignoredErrors"@ {
        280
    } else if name == "smartTags"@ {
        290
    } else if name == "drawing"@ {
        300
    } else if name == "legacyDrawing"@ {
        310
    } else if name == "legacyDrawingHF"@ {
        320
    } else if name == "picture"@ {
        330
    } else if name == "oleObjects"@ {
        340
    } else if name == "controls"@ {
        350
    } else if name == "webPublishItems"@ {
        360
    } else if name == "tableParts"@ {
        370
    } else if name == "extLst"@ {
        380
    } else {
        1000
    }
}

/// The worksheet child order follows the schema sequence: along it the
/// positions strictly increase, and any other name sorts after all of them,
/// at 1000.
pub proof fn lemma_worksheet_child_order_increasing(other: Seq<char>)
    ensures
        worksheet_child_order_spec("sheetPr"@)
            < worksheet_child_order_spec("dimension"@)
            < worksheet_child_order_spec("sheetViews"@)
            < worksheet_child_order_spec("sheetFormatPr"@)
            < worksheet_child_order_spec("cols"@)
            < worksheet_child_order_spec("sheetData"@)
            < worksheet_child_order_spec("sheetCalcPr"@)
            < worksheet_child_order_spec("sheetProtection"@)
            < worksheet_child_order_spec("protectedRanges"@)
            < worksheet_child_order_spec("scenarios"@)
            < worksheet_child_order_spec("autoFilter"@)
            < worksheet_child_order_spec("sortState"@)
            < worksheet_child_order_spec("dataConsolidate"@)
            < worksheet_child_order_spec("customSheetViews"@)
            < worksheet_child_order_spec("mergeCells"@)
            < worksheet_child_order_spec("phoneticPr"@)
            < worksheet_child_order_spec("conditionalFormatting"@)
            < worksheet_child_order_spec("dataValidations"@)
            < worksheet_child_order_spec("hyperlinks"@)
            < worksheet_child_order_spec("printOptions"@)
            < worksheet_child_order_spec("pageMargins"@)
            < worksheet_child_order_spec("pageSetup"@)
            < worksheet_child_order_spec("headerFooter"@)
            < worksheet_child_order_spec("rowBreaks"@)
            < worksheet_child_order_spec("colBreaks"@)
            < worksheet_child_order_spec("customProperties"@)
            < worksheet_child_order_spec("cellWatches"@)
            < worksheet_child_order_spec("ignoredErrors"@)
            < worksheet_child_order_spec("smartTags"@)
            < worksheet_child_order_spec("drawing"@)
            < worksheet_child_order_spec("legacyDrawing"@)
            < worksheet_child_order_spec("legacyDrawingHF"@)
            < worksheet_child_order_spec("picture"@)
            < worksheet_child_order_spec("oleObjects"@)
            < worksheet_child_order_spec("controls"@)
            < worksheet_child_order_spec("webPublishItems"@)
            < worksheet_child_order_spec("tableParts"@)
            < worksheet_child_order_spec("extLst"@)
            < 1000,
        worksheet_child_order_spec(other) == 1000 || worksheet_child_order_spec(other) <= 380,
{
    reveal_strlit("sheetPr");
    reveal_strlit("dimension");
    reveal_strlit("sheetViews");
    reveal_strlit("sheetFormatPr");
    reveal_strlit("cols");
    reveal_strlit("sheetData");
    reveal_strlit("sheetCalcPr");
    reveal_strlit("sheetProtection");
    reveal_strlit("protectedRanges");
    reveal_strlit("scenarios");
    reveal_strlit("autoFilter");
    reveal_strlit("sortState");
    reveal_strlit("dataConsolidate");
    reveal_strlit("customSheetViews");
    reveal_strlit("mergeCells");
    reveal_strlit("phoneticPr");
    reveal_strlit("conditionalFormatting");
    reveal_strlit("dataValidations");
    reveal_strlit("hyperlinks");
    reveal_strlit("printOptions");
    reveal_strlit("pageMargins");
    reveal_strlit("pageSetup");
    reveal_strlit("headerFooter");
    reveal_strlit("rowBreaks");
    reveal_strlit("colBreaks");
    reveal_strlit("customProperties");
    reveal_strlit("cellWatches");
    reveal_strlit("ignoredErrors");
    reveal_strlit("smartTags");
    reveal_strlit("drawing");
    reveal_strlit("legacyDrawing");
    reveal_strlit("legacyDrawingHF");
    reveal_strlit("picture");
    reveal_strlit("oleObjects");
    reveal_strlit("controls");
    reveal_strlit("webPublishItems");
    reveal_strlit("tableParts");
    reveal_strlit("extLst");
    // The names are told apart by their lengths, and names of one length by
    // the first character at which they differ.
    assert("sheetPr"@.len() == 7);
    assert("dimension"@.len() == 9);
    assert("sheetViews"@.len() == 10);
    assert("sheetFormatPr"@.len() == 13);
    assert("cols"@.len() == 4);
    assert("sheetData"@.len() == 9);
    assert("sheetCalcPr"@.len() == 11);
    assert("sheetProtection"@.len() == 15);
    assert("protectedRanges"@.len() == 15);
    assert("scenarios"@.len() == 9);
    assert("autoFilter"@.len() == 10);
    assert("sortState"@.len() == 9);
    assert("dataConsolidate"@.len() == 15);
    assert("customSheetViews"@.len() == 16);
    assert("mergeCells"@.len() == 10);
    assert("phoneticPr"@.len() == 10);
    assert("conditionalFormatting"@.len() == 21);
    assert("dataValidations"@.len() == 15);
    assert("hyperlinks"@.len() == 10);
    assert("printOptions"@.len() == 12);
    assert("pageMargins"@.len() == 11);
    assert("pageSetup"@.len() == 9);
    assert("headerFooter"@.len() == 12);
    assert("rowBreaks"@.len() == 9);
    assert("colBreaks"@.len() == 9);
    assert("customProperties"@.len() == 16);
    assert("cellWatches"@.len() == 11);
    assert("ignoredErrors"@.len() == 13);
    assert("smartTags"@.len() == 9);
    assert("drawing"@.len() == 7);
    assert("legacyDrawing"@.len() == 13);
    assert("legacyDrawingHF"@.len() == 15);
    assert("picture"@.len() == 7);
    assert("oleObjects"@.len() == 10);
    assert("controls"@.len() == 8);
    assert("webPublishItems"@.len() == 15);
    assert("tableParts"@.len() == 10);
    assert("extLst"@.len() == 6);
    assert("sheetData"@[0] == 's' && "dimension"@[0] == 'd');
    assert("protectedRanges"@[0] == 'p' && "sheetProtection"@[0] == 's');
    assert("scenarios"@[0] == 's' && "dimension"@[0] == 'd');
    assert("scenarios"@[1] == 'c' && "sheetData"@[1] == 'h');
    assert("autoFilter"@[0] == 'a' && "sheetViews"@[0] == 's');
    assert("sortState"@[0] == 's' && "dimension"@[0] == 'd');
    assert("sortState"@[1] == 'o' && "sheetData"@[1] == 'h');
    assert("sortState"@[1] == 'o' && "scenarios"@[1] == 'c');
    assert("dataConsolidate"@[0] == 'd' && "sheetProtection"@[0] == 's');
    assert("dataConsolidate"@[0] == 'd' && "protectedRanges"@[0] == 'p');
    assert("mergeCells"@[0] == 'm' && "sheetViews"@[0] == 's');
    assert("mergeCells"@[0] == 'm' && "autoFilter"@[0] == 'a');
    assert("phoneticPr"@[0] == 'p' && "sheetViews"@[0] == 's');
    assert("phoneticPr"@[0] == 'p' && "autoFilter"@[0] == 'a');
    assert("phoneticPr"@[0] == 'p' && "mergeCells"@[0] == 'm');
    assert("dataValidations"@[0] == 'd' && "sheetProtection"@[0] == 's');
    assert("dataValidations"@[0] == 'd' && "protectedRanges"@[0] == 'p');
    assert("dataValidations"@[4] == 'V' && "dataConsolidate"@[4] == 'C');
    assert("hyperlinks"@[0] == 'h' && "sheetViews"@[0] == 's');
    assert("hyperlinks"@[0] == 'h' && "autoFilter"@[0] == 'a');
    assert("hyperlinks"@[0] == 'h' && "mergeCells"@[0] == 'm');
    assert("hyperlinks"@[0] == 'h' && "phoneticPr"@[0] == 'p');
    assert("pageMargins"@[0] == 'p' && "sheetCalcPr"@[0] == 's');
    assert("pageSetup"@[0] == 'p' && "dimension"@[0] == 'd');
    assert("pageSetup"@[0] == 'p' && "sheetData"@[0] == 's');
    assert("pageSetup"@[0] == 'p' && "scenarios"@[0] == 's');
    assert("pageSetup"@[0] == 'p' && "sortState"@[0] == 's');
    assert("headerFooter"@[0] == 'h' && "printOptions"@[0] == 'p');
    assert("rowBreaks"@[0] == 'r' && "dimension"@[0] == 'd');
    assert("rowBreaks"@[0] == 'r' && "sheetData"@[0] == 's');
    assert("rowBreaks"@[0] == 'r' && "scenarios"@[0] == 's');
    assert("rowBreaks"@[0] == 'r' && "sortState"@[0] == 's');
    assert("rowBreaks"@[0] == 'r' && "pageSetup"@[0] == 'p');
    assert("colBreaks"@[0] == 'c' && "dimension"@[0] == 'd');
    assert("colBreaks"@[0] == 'c' && "sheetData"@[0] == 's');
    assert("colBreaks"@[0] == 'c' && "scenarios"@[0] == 's');
    assert("colBreaks"@[0] == 'c' && "sortState"@[0] == 's');
    assert("colBreaks"@[0] == 'c' && "pageSetup"@[0] == 'p');
    assert("colBreaks"@[0] == 'c' && "rowBreaks"@[0] == 'r');
    assert("customProperties"@[6] == 'P' && "customSheetViews"@[6] == 'S');
    assert("cellWatches"@[0] == 'c' && "sheetCalcPr"@[0] == 's');
    assert("cellWatches"@[0] == 'c' && "pageMargins"@[0] == 'p');
    assert("ignoredErrors"@[0] == 'i' && "sheetFormatPr"@[0] == 's');
    assert("smartTags"@[0] == 's' && "dimension"@[0] == 'd');
    assert("smartTags"@[1] == 'm' && "sheetData"@[1] == 'h');
    assert("smartTags"@[1] == 'm' && "scenarios"@[1] == 'c');
    assert("smartTags"@[1] == 'm' && "sortState"@[1] == 'o');
    assert("smartTags"@[0] == 's' && "pageSetup"@[0] == 'p');
    assert("smartTags"@[0] == 's' && "rowBreaks"@[0] == 'r');
    assert("smartTags"@[0] == 's' && "colBreaks"@[0] == 'c');
    assert("drawing"@[0] == 'd' && "sheetPr"@[0] == 's');
    assert("legacyDrawing"@[0] == 'l' && "sheetFormatPr"@[0] == 's');
    assert("legacyDrawing"@[0] == 'l' && "ignoredErrors"@[0] == 'i');
    assert("legacyDrawingHF"@[0] == 'l' && "sheetProtection"@[0] == 's');
    assert("legacyDrawingHF"@[0] == 'l' && "protectedRanges"@[0] == 'p');
    assert("legacyDrawingHF"@[0] == 'l' && "dataConsolidate"@[0] == 'd');
    assert("legacyDrawingHF"@[0] == 'l' && "dataValidations"@[0] == 'd');
    assert("picture"@[0] == 'p' && "sheetPr"@[0] == 's');
    assert("picture"@[0] == 'p' && "drawing"@[0] == 'd');
    assert("oleObjects"@[0] == 'o' && "sheetViews"@[0] == 's');
    assert("oleObjects"@[0] == 'o' && "autoFilter"@[0] == 'a');
    assert("oleObjects"@[0] == 'o' && "mergeCells"@[0] == 'm');
    assert("oleObjects"@[0] == 'o' && "phoneticPr"@[0] == 'p');
    assert("oleObjects"@[0] == 'o' && "hyperlinks"@[0] == 'h');
    assert("webPublishItems"@[0] == 'w' && "sheetProtection"@[0] == 's');
    assert("webPublishItems"@[0] == 'w' && "protectedRanges"@[0] == 'p');
    assert("webPublishItems"@[0] == 'w' && "dataConsolidate"@[0] == 'd');
    assert("webPublishItems"@[0] == 'w' && "dataValidations"@[0] == 'd');
    assert("webPublishItems"@[0] == 'w' && "legacyDrawingHF"@[0] == 'l');
    assert("tableParts"@[0] == 't' && "sheetViews"@[0] == 's');
    assert("tableParts"@[0] == 't' && "autoFilter"@[0] == 'a');
    assert("tableParts"@[0] == 't' && "mergeCells"@[0] == 'm');
    assert("tableParts"@[0] == 't' && "phoneticPr"@[0] == 'p');
    assert("tableParts"@[0] == 't' && "hyperlinks"@[0] == 'h');
    assert("tableParts"@[0] == 't' && "oleObjects"@[0] == 'o');
}

/// `worksheet_child_order`: the schema position of a child of `worksheet` (1000 for unknown names).
pub fn worksheet_child_order(local_name: &str) -> (r: i32)
    ensures
        r == worksheet_child_order_spec(local_name@),
{
    if str_eq(local_name, "sheetPr") {
        10
    } else if str_eq(local_name, "dimension") {
        20
    } else if str_eq(local_name, "sheetViews") {
        30
    } else if str_eq(local_name, "sheetFormatPr") {
        40
    } else if str_eq(local_name, "cols") {
        50
    } else if str_eq(local_name, "sheetData") {
        60
    } else if str_eq(local_name, "sheetCalcPr") {
        70
    } else if str_eq(local_name, "sheetProtection") {
        80
    } else if str_eq(local_name, "protectedRanges") {
        90
    } else if str_eq(local_name, "scenarios") {
        100
    } else if str_eq(local_name, "autoFilter") {
        110
    } else if str_eq(local_name, "sortState") {
        120
    } else if str_eq(local_name, "dataConsolidate") {
        130
    } else if str_eq(local_name, "customSheetViews") {
        140
    } else if str_eq(local_name, "mergeCells") {
        150
    } else if str_eq(local_name, "phoneticPr") {
        160
    } else if str_eq(local_name, "conditionalFormatting") {
        170
    } else if str_eq(local_name, "dataValidations") {
        180
    } else if str_eq(local_name, "hyperlinks") {
        190
    } else if str_eq(local_name, "printOptions") {
        200
    } else if str_eq(local_name, "pageMargins") {
        210
    } else if str_eq(local_name, "pageSetup") {
        220
    } else if str_eq(local_name, "headerFooter") {
        230
    } else if str_eq(local_name, "rowBreaks") {
        240
    } else if str_eq(local_name, "colBreaks") {
        250
    } else if str_eq(local_name, "customProperties") {
        260
    } else if str_eq(local_name, "cellWatches") {
        270
    } else if str_eq(local_name, "ignoredErrors") {
        280
    } else if str_eq(local_name, "smartTags") {
        290
    } else if str_eq(local_name, "drawing") {
        300
    } else if str_eq(local_name, "legacyDrawing") {
        310
    } else if str_eq(local_name, "legacyDrawingHF") {
        320
    } else if str_eq(local_name, "picture") {
        330
    } else if str_eq(local_name, "oleObjects") {
        340
    } else if str_eq(local_name, "controls") {
        350
    } else if str_eq(local_name, "webPublishItems") {
        360
    } else if str_eq(local_name, "tableParts") {
        370
    } else if str_eq(local_name, "extLst") {
        380
    } else {
        1000
    }
}

/// The schema position of a child of `sheetView` (1000 for unknown names).
pub open spec fn sheet_view_child_order_spec(name: Seq<char>) -> i32 {
    if name == "pane"@ {
        10
    } else if name == "selection"@ {
        20
    } else if name == "pivotSelection"@ {
        30
    } else if name == "extLst"@ {
        40
    } else {
        1000
    }
}

/// `sheet_view_child_order`: the schema position of a child of `sheetView` (1000 for unknown names).
pub fn sheet_view_child_order(local_name: &str) -> (r: i32)
    ensures
        r == sheet_view_child_order_spec(local_name@),
{
    if str_eq(local_name, "pane") {
        10
    } else if str_eq(local_name, "selection") {
        20
    } else if str_eq(local_name, "pivotSelection") {
        30
    } else if str_eq(local_name, "extLst") {
        40
    } else {
        1000
    }
}

/// The schema position of an extended document property (10000 for unknown names).
pub open spec fn app_property_order_spec(name: Seq<char>) -> i32 {
    if name == "Template"@ {
        10
    } else if name == "Manager"@ {
        20
    } else if name == "Company"@ {
        30
    } else if name == "Pages"@ {
        40
    } else if name == "Words"@ {
        50
    } else if name == "Characters"@ {
        60
    } else if name == "PresentationFormat"@ {
        70
    } else if name == "Lines"@ {
        80
    } else if name == "Paragraphs"@ {
        90
    } else if name == "Slides"@ {
        100
    } else if name == "Notes"@ {
        110
    } else if name == "TotalTime"@ {
        120
    } else if name == "HiddenSlides"@ {
        130
    } else if name == "MMClips"@ {
        140
    } else if name == "ScaleCrop"@ {
        150
    } else if name == "HeadingPairs"@ {
        160
    } else if name == "TitlesOfParts"@ {
        170
    } else if name == "LinksUpToDate"@ {
        180
    } else if name == "CharactersWithSpaces"@ {
        190
    } else if name == "SharedDoc"@ {
        200
    } else if name == "HyperlinkBase"@ {
        210
    } else if name == "HLinks"@ {
        220
    } else if name == "HyperlinksChanged"@ {
        230
    } else if name == "DigSig"@ {
        240
    } else if name == "Application"@ {
        250
    } else if name == "AppVersion"@ {
        260
    } else if name == "DocSecurity"@ {
        270
    } else {
        10000
    }
}

/// `app_property_order`: the schema position of an extended document property (10000 for unknown names).
pub fn app_property_order(local_name: &str) -> (r: i32)
    ensures
        r == app_property_order_spec(local_name@),
{
    if str_eq(local_name, "Template") {
        10
    } else if str_eq(local_name, "Manager") {
        20
    } else if str_eq(local_name, "Company") {
        30
    } else if str_eq(local_name, "Pages") {
        40
    } else if str_eq(local_name, "Words") {
        50
    } else if str_eq(local_name, "Characters") {
        60
    } else if str_eq(local_name, "PresentationFormat") {
        70
    } else if str_eq(local_name, "Lines") {
        80
    } else if str_eq(local_name, "Paragraphs") {
        90
    } else if str_eq(local_name, "Slides") {
        100
    } else if str_eq(local_name, "Notes") {
        110
    } else if str_eq(local_name, "TotalTime") {
        120
    } else if str_eq(local_name, "HiddenSlides") {
        130
    } else if str_eq(local_name, "MMClips") {
        140
    } else if str_eq(local_name, "ScaleCrop") {
        150
    } else if str_eq(local_name, "HeadingPairs") {
        160
    } else if str_eq(local_name, "TitlesOfParts") {
        170
    } else if str_eq(local_name, "LinksUpToDate") {
        180
    } else if str_eq(local_name, "CharactersWithSpaces") {
        190
    } else if str_eq(local_name, "SharedDoc") {
        200
    } else if str_eq(local_name, "HyperlinkBase") {
        210
    } else if str_eq(local_name, "HLinks") {
        220
    } else if str_eq(local_name, "HyperlinksChanged") {
        230
    } else if str_eq(local_name, "DigSig") {
        240
    } else if str_eq(local_name, "Application") {
        250
    } else if str_eq(local_name, "AppVersion") {
        260
    } else if str_eq(local_name, "DocSecurity") {
        270
    } else {
        10000
    }
}

/// The schema position of a child of `workbook` (10000 for unknown names).
pub open spec fn workbook_child_order_spec(name: Seq<char>) -> i32 {
    if name == "fileVersion"@ {
        10
    } else if name == "fileSharing"@ {
        20
    } else if name == "workbookPr"@ {
        30
    } else if name == "workbookProtection"@ {
        40
    } else if name == "bookViews"@ {
        50
    } else if name == "sheets"@ {
        60
    } else if name == "functionGroups"@ {
        70
    } else if name == "externalReferences"@ {
        80
    } else if name == "definedNames"@ {
        90
    } else if name == "calcPr"@ {
        100
    } else if name == "oleSize"@ {
        110
    } else if name == "customWorkbookViews"@ {
        120
    } else if name == "pivotCaches"@ {
        130
    } else if name == "smartTagPr"@ {
        140
    } else if name == "smartTagTypes"@ {
        150
    } else if name == "webPublishing"@ {
        160
    } else if name == "fileRecoveryPr"@ {
        170
    } else if name == "webPublishObjects"@ {
        180
    } else if name == "extLst"@ {
        190
    } else {
        10000
    }
}

/// `workbook_child_order`: the schema position of a child of `workbook` (10000 for unknown names).
pub fn workbook_child_order(local_name: &str) -> (r: i32)
    ensures
        r == workbook_child_order_spec(local_name@),
{
    if str_eq(local_name, "fileVersion") {
        10
    } else if str_eq(local_name, "fileSharing") {
        20
    } else if str_eq(local_name, "workbookPr") {
        30
    } else if str_eq(local_name, "workbookProtection") {
        40
    } else if str_eq(local_name, "bookViews") {
        50
    } else if str_eq(local_name, "sheets") {
        60
    } else if str_eq(local_name, "functionGroups") {
        70
    } else if str_eq(local_name, "externalReferences") {
        80
    } else if str_eq(local_name, "definedNames") {
        90
    } else if str_eq(local_name, "calcPr") {
        100
    } else if str_eq(local_name, "oleSize") {
        110
    } else if str_eq(local_name, "customWorkbookViews") {
        120
    } else if str_eq(local_name, "pivotCaches") {
        130
    } else if str_eq(local_name, "smartTagPr") {
        140
    } else if str_eq(local_name, "smartTagTypes") {
        150
    } else if str_eq(local_name, "webPublishing") {
        160
    } else if str_eq(local_name, "fileRecoveryPr") {
        170
    } else if str_eq(local_name, "webPublishObjects") {
        180
    } else if str_eq(local_name, "extLst") {
        190
    } else {
        10000
    }
}

/// The schema position of a child of a style `font` (1000 for unknown names).
pub open spec fn font_child_order_spec(name: Seq<char>) -> i32 {
    if name == "b"@ {
        10
    } else if name == "i"@ {
        20
    } else if name == "u"@ {
        30
    } else if name == "strike"@ {
        40
    } else if name == "sz"@ {
        50
    } else if name == "color"@ {
        60
    } else if name == "name"@ {
        70
    } else if name == "family"@ {
        80
    } else if name == "scheme"@ {
        90
    } else {
        1000
    }
}

/// `font_child_order`: the schema position of a child of a style `font` (1000 for unknown names).
pub fn font_child_order(name: &str) -> (r: i32)
    ensures
        r == font_child_order_spec(name@),
{
    if str_eq(name, "b") {
        10
    } else if str_eq(name, "i") {
        20
    } else if str_eq(name, "u") {
        30
    } else if str_eq(name, "strike") {
        40
    } else if str_eq(name, "sz") {
        50
    } else if str_eq(name, "color") {
        60
    } else if str_eq(name, "name") {
        70
    } else if str_eq(name, "family") {
        80
    } else if str_eq(name, "scheme") {
        90
    } else {
        1000
    }
}

/// The schema position of a child of a style `border` (1000 for unknown names).
pub open spec fn border_child_order_spec(name: Seq<char>) -> i32 {
    if name == "start"@ || name == "left"@ {
        10
    } else if name == "end"@ || name == "right"@ {
        20
    } else if name == "top"@ {
        30
    } else if name == "bottom"@ {
        40
    } else if name == "diagonal"@ {
        50
    } else {
        1000
    }
}

/// `border_child_order`: the schema position of a child of a style `border` (1000 for unknown names).
pub fn border_child_order(name: &str) -> (r: i32)
    ensures
        r == border_child_order_spec(name@),
{
    if str_eq(name, "start") || str_eq(name, "left") {
        10
    } else if str_eq(name, "end") || str_eq(name, "right") {
        20
    } else if str_eq(name, "top") {
        30
    } else if str_eq(name, "bottom") {
        40
    } else if str_eq(name, "diagonal") {
        50
    } else {
        1000
    }
}

/// The schema position of a child of a cell format `xf` (1000 for unknown names).
pub open spec fn xf_child_order_spec(name: Seq<char>) -> i32 {
    if name == "alignment"@ {
        10
    } else if name == "protection"@ {
        20
    } else if name == "extLst"@ {
        30
    } else {
        1000
    }
}

/// `xf_child_order`: the schema position of a child of a cell format `xf` (1000 for unknown names).
pub fn xf_child_order(name: &str) -> (r: i32)
    ensures
        r == xf_child_order_spec(name@),
{
    if str_eq(name, "alignment") {
        10
    } else if str_eq(name, "protection") {
        20
    } else if str_eq(name, "extLst") {
        30
    } else {
        1000
    }
}

/// The schema position of a collection in the styles part (1000 for unknown names).
pub open spec fn xlsx_styles_collection_order_spec(name: Seq<char>) -> u32 {
    if name == "numFmts"@ {
        10
    } else if name == "fonts"@ {
        20
    } else if name == "fills"@ {
        30
    } else if name == "borders"@ {
        40
    } else if name == "cellStyleXfs"@ {
        50
    } else if name == "cellXfs"@ {
        60
    } else if name == "cellStyles"@ {
        70
    } else if name == "dxfs"@ {
        80
    } else if name == "tableStyles"@ {
        90
    } else if name == "colors"@ {
        100
    } else if name == "extLst"@ {
        110
    } else {
        1000
    }
}

/// `xlsx_styles_collection_order`: the schema position of a collection in the styles part (1000 for unknown names).
pub fn xlsx_styles_collection_order(name: &str) -> (r: u32)
    ensures
        r == xlsx_styles_collection_order_spec(name@),
{
    if str_eq(name, "numFmts") {
        10
    } else if str_eq(name, "fonts") {
        20
    } else if str_eq(name, "fills") {
        30
    } else if str_eq(name, "borders") {
        40
    } else if str_eq(name, "cellStyleXfs") {
        50
    } else if str_eq(name, "cellXfs") {
        60
    } else if str_eq(name, "cellStyles") {
        70
    } else if str_eq(name, "dxfs") {
        80
    } else if str_eq(name, "tableStyles") {
        90
    } else if str_eq(name, "colors") {
        100
    } else if str_eq(name, "extLst") {
        110
    } else {
        1000
    }
}

} // verus!
