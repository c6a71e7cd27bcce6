//! Interface strings in Simplified Chinese: a lookup from the English text.
use vstd::prelude::*;
use crate::text::str_eq;

verus! {

pub open spec fn zh_cn_part0() -> Seq<(Seq<char>, Seq<char>)> {
    seq![
        ("Folix"@, "Folix"@),
        ("File"@, "文件"@),
        ("Open..."@, "打开..."@),
        ("Close"@, "关闭"@),
        ("Quit"@, "退出"@),
        ("Mode"@, "模式"@),
        ("Help"@, "帮助"@),
        ("About Folix"@, "关于 Folix"@),
        ("Basic"@, "基础浏览"@),
        ("Page Edit"@, "页面编辑"@)
    ]
}

pub open spec fn zh_cn_part1() -> Seq<(Seq<char>, Seq<char>)> {
    seq![
        ("Content"@, "内容"@),
        ("Paged"@, "分页"@),
        ("Scroll"@, "滚动"@),
        ("⚙ Settings"@, "⚙ 设置"@),
        ("📄 PDF Tools"@, "📄 PDF工具"@),
        ("Untitled"@, "未命名"@),
        ("+ New Tab"@, "+ 新标签"@),
        ("PDF / EPUB / TXT Reader"@, "PDF / EPUB / TXT 阅读器"@),
        ("📂  Open File"@, "📂  打开文件"@),
        ("📄  PDF Tools"@, "📄  PDF工具"@)
    ]
}

pub open spec fn zh_cn_part2() -> Seq<(Seq<char>, Seq<char>)> {
    seq![
        ("Recent Files"@, "最近文件"@),
        ("No recent files"@, "暂无最近文件"@),
        ("Open a file or drag-and-drop to get started."@, "打开文件或拖拽文件到窗口以开始阅读。"@),
        ("Appearance"@, "外观"@),
        ("Toolbar Icon Size:"@, "工具栏图标大小："@),
        ("Reader Background:"@, "阅读器背景："@),
        ("Text Area Background:"@, "文字区背景："@),
        ("Toolbars:"@, "工具栏："@),
        ("📖 Nav  ◀▶ ▲▼"@, "📖 导航  ◀▶ ▲▼"@),
        ("🔍 View  Zoom+Layout"@, "🔍 视图  缩放+布局"@)
    ]
}

pub open spec fn zh_cn_part3() -> Seq<(Seq<char>, Seq<char>)> {
    seq![
        ("Page"@, "页"@),
        ("📄 Page"@, "📄 页码"@),
        ("▶ Auto-read"@, "▶ 自动阅读"@),
        ("✏ Page Edit"@, "✏ 页面编辑"@),
        ("Dark Mode (Night)"@, "深色模式（夜间）"@),
        ("Language"@, "语言"@),
        ("简体中文"@, "简体中文"@),
        ("English"@, "English"@),
        ("Scrolling"@, "滚动"@),
        ("Scroll Speed (px/s):"@, "滚动速度（像素/秒）："@)
    ]
}

pub open spec fn zh_cn_part4() -> Seq<(Seq<char>, Seq<char>)> {
    seq![
        (" px/s"@, " 像素/秒"@),
        ("Keyboard Shortcuts"@, "键盘快捷键"@),
        ("Click a shortcut row to edit its key binding."@, "点击快捷键行以编辑按键绑定。"@),
        ("Action"@, "操作"@),
        ("Key"@, "按键"@),
        ("Shift"@, "Shift"@),
        ("Alt"@, "Alt"@),
        ("(unset)"@, "（未设置）"@),
        ("Reset Shortcuts to Default"@, "重置快捷键为默认"@),
        ("Save Config Now"@, "立即保存配置"@)
    ]
}

pub open spec fn zh_cn_part5() -> Seq<(Seq<char>, Seq<char>)> {
    seq![
        ("Config saved"@, "配置已保存"@),
        ("Zoom"@, "缩放"@),
        ("Speed:"@, "速度："@),
        ("↻ CW"@, "↻ 右转"@),
        ("↻ CCW"@, "↻ 左转"@),
        ("Del"@, "删除"@),
        ("+ Page"@, "+ 页面"@),
        ("A-"@, "A-"@),
        ("A+"@, "A+"@),
        ("B"@, "B"@)
    ]
}

pub open spec fn zh_cn_part6() -> Seq<(Seq<char>, Seq<char>)> {
    seq![
        ("I"@, "I"@),
        ("Sidebar"@, "侧边栏"@),
        ("📖 Table of Contents"@, "📖 目录"@),
        ("No table of contents"@, "无目录"@),
        ("🔍 Search"@, "🔍 搜索"@),
        ("Search text..."@, "搜索文本..."@),
        ("0 matches"@, "0 个匹配"@),
        ("🔖 Bookmarks"@, "🔖 书签"@),
        ("+ Add Bookmark"@, "+ 添加书签"@),
        ("Save"@, "保存"@)
    ]
}

pub open spec fn zh_cn_part7() -> Seq<(Seq<char>, Seq<char>)> {
    seq![
        ("PDF Operations"@, "PDF 操作"@),
        ("INPUT"@, "输入"@),
        ("📂 Add Files"@, "📂 添加文件"@),
        ("No files selected"@, "未选择文件"@),
        ("CONVERT"@, "转换"@),
        ("Merge PDFs"@, "合并PDF"@),
        ("Split PDF"@, "拆分PDF"@),
        ("Extract Images"@, "提取图片"@),
        ("Extract Text"@, "提取文本"@),
        ("Image(s) → PDF"@, "图片 → PDF"@)
    ]
}

pub open spec fn zh_cn_part8() -> Seq<(Seq<char>, Seq<char>)> {
    seq![
        ("Split by:"@, "拆分方式："@),
        ("Page range"@, "页码范围"@),
        ("Every N pages"@, "每N页一份"@),
        ("TOC chapters"@, "按目录章节"@),
        ("From:"@, "从："@),
        ("To:"@, "到："@),
        ("Pages per chunk:"@, "每份页数："@),
        ("chapters found"@, "个章节"@),
        ("No TOC data. Select a PDF first."@, "无目录数据。请先选择PDF文件。"@),
        ("Each page is exported as a separate PNG."@, "每个页面将导出为单独的PNG文件。"@)
    ]
}

pub open spec fn zh_cn_part9() -> Seq<(Seq<char>, Seq<char>)> {
    seq![
        ("All pages from the input PDF will be extracted."@, "将提取输入PDF中的所有页面。"@),
        ("Extracts all text from the PDF into a .txt file."@, "将PDF中的所有文本提取到.txt文件中。"@),
        ("Select at least 2 PDF files in the input panel."@, "在输入面板中选择至少2个PDF文件。"@),
        ("They will be merged in order."@, "它们将按顺序合并。"@),
        ("Select one or more images."@, "选择一个或多个图片。"@),
        ("They will be combined into a single PDF, one per page."@, "它们将合并为一个PDF，每页一张图片。"@),
        ("OUTPUT"@, "输出"@),
        ("Folder:"@, "文件夹："@),
        ("Browse..."@, "浏览..."@),
        ("Preview:"@, "预览："@)
    ]
}

pub open spec fn zh_cn_part10() -> Seq<(Seq<char>, Seq<char>)> {
    seq![
        ("⏳ Running…"@, "⏳ 执行中…"@),
        ("▶ Execute"@, "▶ 执行"@),
        ("LOG"@, "日志"@),
        ("Clear Log"@, "清除日志"@),
        ("No operations yet."@, "暂无操作。"@),
        ("Opened:"@, "已打开："@),
        ("Failed to open:"@, "打开失败："@),
        ("Saved:"@, "已保存："@),
        ("Reloaded:"@, "已重新加载："@),
        ("Failed to reload:"@, "重新加载失败："@)
    ]
}

pub open spec fn zh_cn_part11() -> Seq<(Seq<char>, Seq<char>)> {
    seq![
        ("Config file: ./folix.conf"@, "配置文件：./folix.conf"@),
        ("Open File"@, "打开文件"@),
        ("Close Tab"@, "关闭标签"@),
        ("Quit"@, "退出"@),
        ("Reload"@, "重新加载"@),
        ("Zoom In"@, "放大"@),
        ("Zoom Out"@, "缩小"@),
        ("Fit Page"@, "适应页面"@),
        ("Actual Size"@, "实际大小"@),
        ("Fit Width"@, "适应宽度"@)
    ]
}

pub open spec fn zh_cn_part12() -> Seq<(Seq<char>, Seq<char>)> {
    seq![
        ("Next Page"@, "下一页"@),
        ("Prev Page"@, "上一页"@),
        ("First Page"@, "首页"@),
        ("Last Page"@, "末页"@),
        ("Scroll Down"@, "向下滚动"@),
        ("Scroll Up"@, "向上滚动"@),
        ("Highlight Selection"@, "高亮选中"@),
        ("Add Bookmark"@, "添加书签"@),
        ("Toggle Sidebar"@, "切换侧边栏"@),
        ("Toggle UI"@, "切换界面"@)
    ]
}

pub open spec fn zh_cn_part13() -> Seq<(Seq<char>, Seq<char>)> {
    seq![
        ("Copy"@, "复制"@),
        ("PDF/EPUB Reader"@, "PDF/EPUB 阅读器"@),
        ("Version:"@, "版本："@),
        ("Built with egui + mupdf"@, "基于 egui + mupdf 构建"@),
        ("📝 Vocabulary"@, "📝 生词本"@),
        ("💬 Sentences"@, "💬 句子收藏"@),
        ("📝 Add to Vocabulary"@, "📝 加入生词本"@),
        ("💬 Save Sentence"@, "💬 收藏句子"@),
        ("Add Vocabulary"@, "添加生词"@),
        ("Word / Phrase:"@, "单词/短语："@)
    ]
}

pub open spec fn zh_cn_part14() -> Seq<(Seq<char>, Seq<char>)> {
    seq![
        ("+ Add"@, "+ 添加"@),
        ("Fit Page"@, "适应页面"@),
        ("Fit Width"@, "适应宽度"@),
        ("Actual Size"@, "实际大小"@),
        ("↻ Rotate View"@, "↻ 旋转视图"@),
        ("↻ 90°"@, "↻ 90°"@),
        ("↺ 90°"@, "↺ 90°"@),
        ("Navigate"@, "导航"@),
        ("Go to Page..."@, "跳转到页..."@),
        ("Go to Page"@, "跳转到页"@)
    ]
}

pub open spec fn zh_cn_part15() -> Seq<(Seq<char>, Seq<char>)> {
    seq![
        ("Page number:"@, "页码："@),
        ("Go"@, "跳转"@),
        ("Tools"@, "工具"@),
        ("Line Numbers"@, "行号"@),
        ("Aa"@, "Aa"@),
        ("Reading Settings"@, "阅读排版"@),
        ("Font Size"@, "字体大小"@),
        ("Line Height"@, "行间距"@),
        ("Margin"@, "页边距"@),
        ("Max Width"@, "最大宽度"@)
    ]
}

/// The Simplified Chinese table: (English text, translation), in order.
pub open spec fn zh_cn() -> Seq<(Seq<char>, Seq<char>)> {
    zh_cn_part0() + zh_cn_part1() + zh_cn_part2() + zh_cn_part3() + zh_cn_part4() + zh_cn_part5() + zh_cn_part6() + zh_cn_part7() + zh_cn_part8() + zh_cn_part9() + zh_cn_part10() + zh_cn_part11() + zh_cn_part12() + zh_cn_part13() + zh_cn_part14() + zh_cn_part15()
}

/// The translation of the first entry of `tbl` whose key is `text`; the
/// text itself when none is.
pub open spec fn lookup(tbl: Seq<(Seq<char>, Seq<char>)>, text: Seq<char>) -> Seq<char>
    decreases tbl.len(),
{
    if tbl.len() == 0 {
        text
    } else if tbl[0].0 == text {
        tbl[0].1
    } else {
        lookup(tbl.drop_first(), text)
    }
}

/// What `tr` gives: for `zh-CN` the table's translation, else the text.
pub open spec fn translated(lang: Seq<char>, text: Seq<char>) -> Seq<char> {
    if lang == "zh-CN"@ {
        lookup(zh_cn(), text)
    } else {
        text
    }
}

/// Text is shown as it is in any language but `zh-CN`, and in `zh-CN`
/// when the table has no entry for it.
pub proof fn lemma_untranslated_text_stays(lang: Seq<char>, text: Seq<char>)
    ensures
        lang != "zh-CN"@ ==> translated(lang, text) == text,
        (forall|i: int| 0 <= i < zh_cn().len() ==> (#[trigger] zh_cn()[i]).0 != text) ==> translated(lang, text)
            == text,
{
    if forall|i: int| 0 <= i < zh_cn().len() ==> (#[trigger] zh_cn()[i]).0 != text {
        lemma_lookup_missing(zh_cn(), text);
    }
}

proof fn lemma_lookup_missing(tbl: Seq<(Seq<char>, Seq<char>)>, text: Seq<char>)
    requires
        forall|i: int| 0 <= i < tbl.len() ==> (#[trigger] tbl[i]).0 != text,
    ensures
        lookup(tbl, text) == text,
    decreases tbl.len(),
{
    if tbl.len() > 0 {
        assert(tbl[0].0 != text);
        assert forall|i: int| 0 <= i < tbl.drop_first().len() implies (#[trigger] tbl.drop_first()[i]).0 != text by {
            assert(tbl.drop_first()[i] == tbl[i + 1]);
        }
        lemma_lookup_missing(tbl.drop_first(), text);
    }
}

pub open spec fn pairs_view(v: Seq<(&'static str, &'static str)>) -> Seq<(Seq<char>, Seq<char>)> {
    v.map_values(|p: (&'static str, &'static str)| (p.0@, p.1@))
}

proof fn lemma_pairs_view_append(a: Seq<(&'static str, &'static str)>, b: Seq<(&'static str, &'static str)>)
    ensures
        pairs_view(a + b) == pairs_view(a) + pairs_view(b),
{
    assert(pairs_view(a + b) =~= pairs_view(a) + pairs_view(b));
}

fn zh_cn_chunk0() -> (t: Vec<(&'static str, &'static str)>)
    ensures
        pairs_view(t@) == zh_cn_part0(),
{
    let mut t: Vec<(&'static str, &'static str)> = Vec::new();
    t.push(("Folix", "Folix"));
    t.push(("File", "文件"));
    t.push(("Open...", "打开..."));
    t.push(("Close", "关闭"));
    t.push(("Quit", "退出"));
    t.push(("Mode", "模式"));
    t.push(("Help", "帮助"));
    t.push(("About Folix", "关于 Folix"));
    t.push(("Basic", "基础浏览"));
    t.push(("Page Edit", "页面编辑"));
    assert(pairs_view(t@) =~= zh_cn_part0());
    t
}

fn zh_cn_chunk1() -> (t: Vec<(&'static str, &'static str)>)
    ensures
        pairs_view(t@) == zh_cn_part1(),
{
    let mut t: Vec<(&'static str, &'static str)> = Vec::new();
    t.push(("Content", "内容"));
    t.push(("Paged", "分页"));
    t.push(("Scroll", "滚动"));
    t.push(("⚙ Settings", "⚙ 设置"));
    t.push(("📄 PDF Tools", "📄 PDF工具"));
    t.push(("Untitled", "未命名"));
    t.push(("+ New Tab", "+ 新标签"));
    t.push(("PDF / EPUB / TXT Reader", "PDF / EPUB / TXT 阅读器"));
    t.push(("📂  Open File", "📂  打开文件"));
    t.push(("📄  PDF Tools", "📄  PDF工具"));
    assert(pairs_view(t@) =~= zh_cn_part1());
    t
}

fn zh_cn_chunk2() -> (t: Vec<(&'static str, &'static str)>)
    ensures
        pairs_view(t@) == zh_cn_part2(),
{
    let mut t: Vec<(&'static str, &'static str)> = Vec::new();
    t.push(("Recent Files", "最近文件"));
    t.push(("No recent files", "暂无最近文件"));
    t.push(("Open a file or drag-and-drop to get started.", "打开文件或拖拽文件到窗口以开始阅读。"));
    t.push(("Appearance", "外观"));
    t.push(("Toolbar Icon Size:", "工具栏图标大小："));
    t.push(("Reader Background:", "阅读器背景："));
    t.push(("Text Area Background:", "文字区背景："));
    t.push(("Toolbars:", "工具栏："));
    t.push(("📖 Nav  ◀▶ ▲▼", "📖 导航  ◀▶ ▲▼"));
    t.push(("🔍 View  Zoom+Layout", "🔍 视图  缩放+布局"));
    assert(pairs_view(t@) =~= zh_cn_part2());
    t
}

fn zh_cn_chunk3() -> (t: Vec<(&'static str, &'static str)>)
    ensures
        pairs_view(t@) == zh_cn_part3(),
{
    let mut t: Vec<(&'static str, &'static str)> = Vec::new();
    t.push(("Page", "页"));
    t.push(("📄 Page", "📄 页码"));
    t.push(("▶ Auto-read", "▶ 自动阅读"));
    t.push(("✏ Page Edit", "✏ 页面编辑"));
    t.push(("Dark Mode (Night)", "深色模式（夜间）"));
    t.push(("Language", "语言"));
    t.push(("简体中文", "简体中文"));
    t.push(("English", "English"));
    t.push(("Scrolling", "滚动"));
    t.push(("Scroll Speed (px/s):", "滚动速度（像素/秒）："));
    assert(pairs_view(t@) =~= zh_cn_part3());
    t
}

fn zh_cn_chunk4() -> (t: Vec<(&'static str, &'static str)>)
    ensures
        pairs_view(t@) == zh_cn_part4(),
{
    let mut t: Vec<(&'static str, &'static str)> = Vec::new();
    t.push((" px/s", " 像素/秒"));
    t.push(("Keyboard Shortcuts", "键盘快捷键"));
    t.push(("Click a shortcut row to edit its key binding.", "点击快捷键行以编辑按键绑定。"));
    t.push(("Action", "操作"));
    t.push(("Key", "按键"));
    t.push(("Shift", "Shift"));
    t.push(("Alt", "Alt"));
    t.push(("(unset)", "（未设置）"));
    t.push(("Reset Shortcuts to Default", "重置快捷键为默认"));
    t.push(("Save Config Now", "立即保存配置"));
    assert(pairs_view(t@) =~= zh_cn_part4());
    t
}

fn zh_cn_chunk5() -> (t: Vec<(&'static str, &'static str)>)
    ensures
        pairs_view(t@) == zh_cn_part5(),
{
    let mut t: Vec<(&'static str, &'static str)> = Vec::new();
    t.push(("Config saved", "配置已保存"));
    t.push(("Zoom", "缩放"));
    t.push(("Speed:", "速度："));
    t.push(("↻ CW", "↻ 右转"));
    t.push(("↻ CCW", "↻ 左转"));
    t.push(("Del", "删除"));
    t.push(("+ Page", "+ 页面"));
    t.push(("A-", "A-"));
    t.push(("A+", "A+"));
    t.push(("B", "B"));
    assert(pairs_view(t@) =~= zh_cn_part5());
    t
}

fn zh_cn_chunk6() -> (t: Vec<(&'static str, &'static str)>)
    ensures
        pairs_view(t@) == zh_cn_part6(),
{
    let mut t: Vec<(&'static str, &'static str)> = Vec::new();
    t.push(("I", "I"));
    t.push(("Sidebar", "侧边栏"));
    t.push(("📖 Table of Contents", "📖 目录"));
    t.push(("No table of contents", "无目录"));
    t.push(("🔍 Search", "🔍 搜索"));
    t.push(("Search text...", "搜索文本..."));
    t.push(("0 matches", "0 个匹配"));
    t.push(("🔖 Bookmarks", "🔖 书签"));
    t.push(("+ Add Bookmark", "+ 添加书签"));
    t.push(("Save", "保存"));
    assert(pairs_view(t@) =~= zh_cn_part6());
    t
}

fn zh_cn_chunk7() -> (t: Vec<(&'static str, &'static str)>)
    ensures
        pairs_view(t@) == zh_cn_part7(),
{
    let mut t: Vec<(&'static str, &'static str)> = Vec::new();
    t.push(("PDF Operations", "PDF 操作"));
    t.push(("INPUT", "输入"));
    t.push(("📂 Add Files", "📂 添加文件"));
    t.push(("No files selected", "未选择文件"));
    t.push(("CONVERT", "转换"));
    t.push(("Merge PDFs", "合并PDF"));
    t.push(("Split PDF", "拆分PDF"));
    t.push(("Extract Images", "提取图片"));
    t.push(("Extract Text", "提取文本"));
    t.push(("Image(s) → PDF", "图片 → PDF"));
    assert(pairs_view(t@) =~= zh_cn_part7());
    t
}

fn zh_cn_chunk8() -> (t: Vec<(&'static str, &'static str)>)
    ensures
        pairs_view(t@) == zh_cn_part8(),
{
    let mut t: Vec<(&'static str, &'static str)> = Vec::new();
    t.push(("Split by:", "拆分方式："));
    t.push(("Page range", "页码范围"));
    t.push(("Every N pages", "每N页一份"));
    t.push(("TOC chapters", "按目录章节"));
    t.push(("From:", "从："));
    t.push(("To:", "到："));
    t.push(("Pages per chunk:", "每份页数："));
    t.push(("chapters found", "个章节"));
    t.push(("No TOC data. Select a PDF first.", "无目录数据。请先选择PDF文件。"));
    t.push(("Each page is exported as a separate PNG.", "每个页面将导出为单独的PNG文件。"));
    assert(pairs_view(t@) =~= zh_cn_part8());
    t
}

fn zh_cn_chunk9() -> (t: Vec<(&'static str, &'static str)>)
    ensures
        pairs_view(t@) == zh_cn_part9(),
{
    let mut t: Vec<(&'static str, &'static str)> = Vec::new();
    t.push(("All pages from the input PDF will be extracted.", "将提取输入PDF中的所有页面。"));
    t.push(("Extracts all text from the PDF into a .txt file.", "将PDF中的所有文本提取到.txt文件中。"));
    t.push(("Select at least 2 PDF files in the input panel.", "在输入面板中选择至少2个PDF文件。"));
    t.push(("They will be merged in order.", "它们将按顺序合并。"));
    t.push(("Select one or more images.", "选择一个或多个图片。"));
    t.push(("They will be combined into a single PDF, one per page.", "它们将合并为一个PDF，每页一张图片。"));
    t.push(("OUTPUT", "输出"));
    t.push(("Folder:", "文件夹："));
    t.push(("Browse...", "浏览..."));
    t.push(("Preview:", "预览："));
    assert(pairs_view(t@) =~= zh_cn_part9());
    t
}

fn zh_cn_chunk10() -> (t: Vec<(&'static str, &'static str)>)
    ensures
        pairs_view(t@) == zh_cn_part10(),
{
    let mut t: Vec<(&'static str, &'static str)> = Vec::new();
    t.push(("⏳ Running…", "⏳ 执行中…"));
    t.push(("▶ Execute", "▶ 执行"));
    t.push(("LOG", "日志"));
    t.push(("Clear Log", "清除日志"));
    t.push(("No operations yet.", "暂无操作。"));
    t.push(("Opened:", "已打开："));
    t.push(("Failed to open:", "打开失败："));
    t.push(("Saved:", "已保存："));
    t.push(("Reloaded:", "已重新加载："));
    t.push(("Failed to reload:", "重新加载失败："));
    assert(pairs_view(t@) =~= zh_cn_part10());
    t
}

fn zh_cn_chunk11() -> (t: Vec<(&'static str, &'static str)>)
    ensures
        pairs_view(t@) == zh_cn_part11(),
{
    let mut t: Vec<(&'static str, &'static str)> = Vec::new();
    t.push(("Config file: ./folix.conf", "配置文件：./folix.conf"));
    t.push(("Open File", "打开文件"));
    t.push(("Close Tab", "关闭标签"));
    t.push(("Quit", "退出"));
    t.push(("Reload", "重新加载"));
    t.push(("Zoom In", "放大"));
    t.push(("Zoom Out", "缩小"));
    t.push(("Fit Page", "适应页面"));
    t.push(("Actual Size", "实际大小"));
    t.push(("Fit Width", "适应宽度"));
    assert(pairs_view(t@) =~= zh_cn_part11());
    t
}

fn zh_cn_chunk12() -> (t: Vec<(&'static str, &'static str)>)
    ensures
        pairs_view(t@) == zh_cn_part12(),
{
    let mut t: Vec<(&'static str, &'static str)> = Vec::new();
    t.push(("Next Page", "下一页"));
    t.push(("Prev Page", "上一页"));
    t.push(("First Page", "首页"));
    t.push(("Last Page", "末页"));
    t.push(("Scroll Down", "向下滚动"));
    t.push(("Scroll Up", "向上滚动"));
    t.push(("Highlight Selection", "高亮选中"));
    t.push(("Add Bookmark", "添加书签"));
    t.push(("Toggle Sidebar", "切换侧边栏"));
    t.push(("Toggle UI", "切换界面"));
    assert(pairs_view(t@) =~= zh_cn_part12());
    t
}

fn zh_cn_chunk13() -> (t: Vec<(&'static str, &'static str)>)
    ensures
        pairs_view(t@) == zh_cn_part13(),
{
    let mut t: Vec<(&'static str, &'static str)> = Vec::new();
    t.push(("Copy", "复制"));
    t.push(("PDF/EPUB Reader", "PDF/EPUB 阅读器"));
    t.push(("Version:", "版本："));
    t.push(("Built with egui + mupdf", "基于 egui + mupdf 构建"));
    t.push(("📝 Vocabulary", "📝 生词本"));
    t.push(("💬 Sentences", "💬 句子收藏"));
    t.push(("📝 Add to Vocabulary", "📝 加入生词本"));
    t.push(("💬 Save Sentence", "💬 收藏句子"));
    t.push(("Add Vocabulary", "添加生词"));
    t.push(("Word / Phrase:", "单词/短语："));
    assert(pairs_view(t@) =~= zh_cn_part13());
    t
}

fn zh_cn_chunk14() -> (t: Vec<(&'static str, &'static str)>)
    ensures
        pairs_view(t@) == zh_cn_part14(),
{
    let mut t: Vec<(&'static str, &'static str)> = Vec::new();
    t.push(("+ Add", "+ 添加"));
    t.push(("Fit Page", "适应页面"));
    t.push(("Fit Width", "适应宽度"));
    t.push(("Actual Size", "实际大小"));
    t.push(("↻ Rotate View", "↻ 旋转视图"));
    t.push(("↻ 90°", "↻ 90°"));
    t.push(("↺ 90°", "↺ 90°"));
    t.push(("Navigate", "导航"));
    t.push(("Go to Page...", "跳转到页..."));
    t.push(("Go to Page", "跳转到页"));
    assert(pairs_view(t@) =~= zh_cn_part14());
    t
}

fn zh_cn_chunk15() -> (t: Vec<(&'static str, &'static str)>)
    ensures
        pairs_view(t@) == zh_cn_part15(),
{
    let mut t: Vec<(&'static str, &'static str)> = Vec::new();
    t.push(("Page number:", "页码："));
    t.push(("Go", "跳转"));
    t.push(("Tools", "工具"));
    t.push(("Line Numbers", "行号"));
    t.push(("Aa", "Aa"));
    t.push(("Reading Settings", "阅读排版"));
    t.push(("Font Size", "字体大小"));
    t.push(("Line Height", "行间距"));
    t.push(("Margin", "页边距"));
    t.push(("Max Width", "最大宽度"));
    assert(pairs_view(t@) =~= zh_cn_part15());
    t
}

fn zh_cn_table() -> (t: Vec<(&'static str, &'static str)>)
    ensures
        pairs_view(t@) == zh_cn(),
{
    let mut t: Vec<(&'static str, &'static str)> = Vec::new();
    assert(pairs_view(t@) =~= Seq::<(Seq<char>, Seq<char>)>::empty());
    let mut c = zh_cn_chunk0();
    proof {
        lemma_pairs_view_append(t@, c@);
    }
    t.append(&mut c);
    let mut c = zh_cn_chunk1();
    proof {
        lemma_pairs_view_append(t@, c@);
    }
    t.append(&mut c);
    let mut c = zh_cn_chunk2();
    proof {
        lemma_pairs_view_append(t@, c@);
    }
    t.append(&mut c);
    let mut c = zh_cn_chunk3();
    proof {
        lemma_pairs_view_append(t@, c@);
    }
    t.append(&mut c);
    let mut c = zh_cn_chunk4();
    proof {
        lemma_pairs_view_append(t@, c@);
    }
    t.append(&mut c);
    let mut c = zh_cn_chunk5();
    proof {
        lemma_pairs_view_append(t@, c@);
    }
    t.append(&mut c);
    let mut c = zh_cn_chunk6();
    proof {
        lemma_pairs_view_append(t@, c@);
    }
    t.append(&mut c);
    let mut c = zh_cn_chunk7();
    proof {
        lemma_pairs_view_append(t@, c@);
    }
    t.append(&mut c);
    let mut c = zh_cn_chunk8();
    proof {
        lemma_pairs_view_append(t@, c@);
    }
    t.append(&mut c);
    let mut c = zh_cn_chunk9();
    proof {
        lemma_pairs_view_append(t@, c@);
    }
    t.append(&mut c);
    let mut c = zh_cn_chunk10();
    proof {
        lemma_pairs_view_append(t@, c@);
    }
    t.append(&mut c);
    let mut c = zh_cn_chunk11();
    proof {
        lemma_pairs_view_append(t@, c@);
    }
    t.append(&mut c);
    let mut c = zh_cn_chunk12();
    proof {
        lemma_pairs_view_append(t@, c@);
    }
    t.append(&mut c);
    let mut c = zh_cn_chunk13();
    proof {
        lemma_pairs_view_append(t@, c@);
    }
    t.append(&mut c);
    let mut c = zh_cn_chunk14();
    proof {
        lemma_pairs_view_append(t@, c@);
    }
    t.append(&mut c);
    let mut c = zh_cn_chunk15();
    proof {
        lemma_pairs_view_append(t@, c@);
    }
    t.append(&mut c);
    assert(pairs_view(t@) =~= zh_cn());
    t
}

/// Translates interface text `text` into language `lang`.
pub fn tr(lang: &str, text: &'static str) -> (out: &'static str)
    ensures
        out@ == translated(lang@, text@),
{
    proof {
        reveal_strlit("zh-CN");
    }
    if !str_eq(lang, "zh-CN") {
        return text;
    }
    assert(lang@ == "zh-CN"@);
    assert(translated(lang@, text@) == lookup(zh_cn(), text@));
    let t = zh_cn_table();
    let ghost tv = pairs_view(t@);
    let mut k: usize = 0;
    assert(tv.skip(0) =~= tv);
    while k < t.len()
        invariant
            k <= t@.len(),
            tv == pairs_view(t@),
            tv == zh_cn(),
            translated(lang@, text@) == lookup(zh_cn(), text@),
            lookup(tv, text@) == lookup(tv.skip(k as int), text@),
        decreases t@.len() - k,
    {
        assert(tv.skip(k as int)[0] == tv[k as int]);
        assert(tv[k as int] == (t@[k as int].0@, t@[k as int].1@));
        if str_eq(t[k].0, text) {
            assert(tv.skip(k as int).len() > 0);
            assert(lookup(tv.skip(k as int), text@) == tv[k as int].1);
            assert(lookup(zh_cn(), text@) == t@[k as int].1@);
            return t[k].1;
        }
        assert(tv.skip(k as int).drop_first() =~= tv.skip(k + 1));
        k += 1;
    }
    assert(tv.skip(k as int).len() == 0);
    text
}

} // verus!
