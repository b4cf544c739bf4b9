//! The preview page: a builder that collects font family names and renders
//! them, each around the target character, into one fixed HTML document.

use vstd::prelude::*;
use crate::escape::{
    css_escape_text, escape_char, escape_text, is_markup_char, lemma_css_escaped_stays_in_string,
    lemma_escaped_has_no_markup, push_css_escaped, push_escaped, push_escaped_char,
};
use crate::server::{ServerState, StaticPageServer};

verus! {

/// Start of the page, up to the opening of the stylesheet.
pub const PAGE_HEAD: &'static str = "<!DOCTYPE html>\n<html>\n<head>\n<meta charset=\"utf-8\">\n<title>Font preview</title>\n<style>\n";

/// The stylesheet of the page.
pub const STYLE: &'static str = "body { margin: 2em; font-family: sans-serif; background: #fafafa; }\n.preview { display: inline-block; margin: 1em; padding: 1em; border: 1px solid #ccc; background: #fff; text-align: center; }\n.preview .char { font-size: 6em; line-height: 1.2; }\n.preview .name { margin-top: 0.5em; font-size: 0.9em; color: #555; }\n";

/// From the end of the stylesheet to the start of the preview region.
pub const PAGE_BODY: &'static str = "</style>\n</head>\n<body>\n";

/// End of the page, after the preview region.
pub const PAGE_TAIL: &'static str = "</body>\n</html>\n";

/// Start of a preview block, up to the family name in the font style.
pub const BLOCK_OPEN: &'static str = "<div class=\"preview\">\n<div class=\"char\" style=\"font-family: '";

/// From the family name in the font style to the character.
pub const BLOCK_CHAR: &'static str = "';\">";

/// From the character to the family name shown as a caption.
pub const BLOCK_NAME: &'static str = "</div>\n<div class=\"name\">";

/// End of a preview block.
pub const BLOCK_CLOSE: &'static str = "</div>\n</div>\n";

/// The family name as it stands in the font style: escaped for a CSS string,
/// then for HTML.
pub open spec fn style_name(family: Seq<char>) -> Seq<char> {
    escape_text(css_escape_text(family))
}

/// The preview block of character `c` in family `family`.
pub open spec fn block_of(c: char, family: Seq<char>) -> Seq<char> {
    BLOCK_OPEN@ + style_name(family) + BLOCK_CHAR@ + escape_char(c) + BLOCK_NAME@
        + escape_text(family) + BLOCK_CLOSE@
}

/// The preview region: one block per family, in the order of `families`.
pub open spec fn previews_of(c: char, families: Seq<Seq<char>>) -> Seq<char>
    decreases families.len(),
{
    if families.len() == 0 {
        Seq::empty()
    } else {
        previews_of(c, families.drop_last()) + block_of(c, families.last())
    }
}

/// The whole page previewing `c` in each of `families`.
pub open spec fn page_of(c: char, families: Seq<Seq<char>>) -> Seq<char> {
    PAGE_HEAD@ + STYLE@ + PAGE_BODY@ + previews_of(c, families) + PAGE_TAIL@
}

/// A font family, as far as the preview needs it: its default display name,
/// the one chosen when the family carries names in several languages.
pub struct Family {
    name: String,
}

impl View for Family {
    type V = Seq<char>;

    closed spec fn view(&self) -> Seq<char> {
        self.name@
    }
}

impl Family {
    /// A family whose default display name is `name`.
    pub fn new(name: String) -> (r: Family)
        ensures
            r@ == name@,
    {
        Family { name }
    }

    /// The default display name.
    pub fn default_name(&self) -> (r: &str)
        ensures
            r@ == self@,
    {
        self.name.as_str()
    }
}

/// Collects family names, in the order they are added, duplicates kept.
pub struct Builder {
    families: Vec<String>,
}

impl View for Builder {
    type V = Seq<Seq<char>>;

    closed spec fn view(&self) -> Seq<Seq<char>> {
        self.families@.map_values(|s: String| s@)
    }
}

impl Default for Builder {
    fn default() -> (r: Builder)
        ensures
            r@ == Seq::<Seq<char>>::empty(),
    {
        Builder { families: Vec::new() }
    }
}

impl Builder {
    /// Appends the default display name of `family`.
    pub fn add_family(&mut self, family: &Family) -> (r: &mut Builder)
        ensures
            r@ == old(self)@.push(family@),
            *final(self) == *final(r),
    {
        let name = family.default_name();
        self.families.push(String::from_str(name));
        assert(self@ =~= old(self)@.push(family@));
        self
    }

    /// A builder holding the default names of `families`, in their order.
    pub fn from_families(families: &[Family]) -> (r: Builder)
        ensures
            r@ == families@.map_values(|f: Family| f@),
    {
        let mut builder = Builder { families: Vec::new() };
        let mut i: usize = 0;
        while i < families.len()
            invariant
                i <= families@.len(),
                builder@ == families@.subrange(0, i as int).map_values(|f: Family| f@),
            decreases families@.len() - i,
        {
            builder.add_family(&families[i]);
            assert(families@.subrange(0, i + 1).map_values(|f: Family| f@)
                =~= families@.subrange(0, i as int).map_values(|f: Family| f@).push(families@[i as int]@));
            i = i + 1;
        }
        assert(families@.subrange(0, i as int) =~= families@);
        builder
    }

    /// Renders the page that previews `c` in each collected family.
    pub fn build_html(self, c: char) -> (r: String)
        ensures
            r@ == page_of(c, self@),
    {
        let mut out = String::new();
        out.append(PAGE_HEAD);
        out.append(STYLE);
        out.append(PAGE_BODY);
        let ghost head = out@;
        let mut i: usize = 0;
        while i < self.families.len()
            invariant
                i <= self@.len(),
                self@.len() == self.families@.len(),
                out@ == head + previews_of(c, self@.subrange(0, i as int)),
            decreases self@.len() - i,
        {
            let name = self.families[i].as_str();
            let mut css_name = String::new();
            push_css_escaped(&mut css_name, name);
            out.append(BLOCK_OPEN);
            push_escaped(&mut out, css_name.as_str());
            out.append(BLOCK_CHAR);
            push_escaped_char(&mut out, c);
            out.append(BLOCK_NAME);
            push_escaped(&mut out, name);
            out.append(BLOCK_CLOSE);
            proof {
                let next = self@.subrange(0, i + 1);
                assert(next.drop_last() =~= self@.subrange(0, i as int));
                assert(next.last() == self@[i as int]);
                assert(out@ =~= head + previews_of(c, next));
            }
            i = i + 1;
        }
        assert(self@.subrange(0, i as int) =~= self@);
        out.append(PAGE_TAIL);
        assert(out@ =~= page_of(c, self@));
        out
    }

    /// Renders the page that previews `c` and hands it to a new server. The
    /// builder is consumed: it cannot be used again.
    pub fn build_for(self, c: char) -> (r: StaticPageServer)
        ensures
            r.spec_document() == page_of(c, self@),
            r.spec_state() == ServerState::Created,
    {
        StaticPageServer::new(self.build_html(c))
    }
}

/// The preview region of two lists of families, one after the other, is the
/// region of the first followed by the region of the second.
pub proof fn lemma_previews_concat(c: char, a: Seq<Seq<char>>, b: Seq<Seq<char>>)
    ensures
        previews_of(c, a + b) == previews_of(c, a) + previews_of(c, b),
    decreases b.len(),
{
    if b.len() == 0 {
        assert(a + b =~= a);
        assert(previews_of(c, a) + previews_of(c, b) =~= previews_of(c, a));
    } else {
        lemma_previews_concat(c, a, b.drop_last());
        assert((a + b).drop_last() =~= a + b.drop_last());
        assert((a + b).last() == b.last());
        assert(previews_of(c, a + b) =~= previews_of(c, a) + previews_of(c, b));
    }
}

/// The preview region holds exactly one block for each family, in the order
/// the families were added, duplicates included: block `i` stands between
/// the blocks of the families before it and those after it.
pub proof fn lemma_one_block_per_family(c: char, families: Seq<Seq<char>>)
    ensures
        forall|i: int|
            0 <= i < families.len() ==> previews_of(c, families) == previews_of(
                c,
                families.subrange(0, i),
            ) + block_of(c, #[trigger] families[i]) + previews_of(
                c,
                families.subrange(i + 1, families.len() as int),
            ),
{
    assert forall|i: int| 0 <= i < families.len() implies previews_of(c, families)
        == previews_of(c, families.subrange(0, i)) + block_of(c, #[trigger] families[i])
        + previews_of(c, families.subrange(i + 1, families.len() as int)) by {
        let before = families.subrange(0, i);
        let one = seq![families[i]];
        let after = families.subrange(i + 1, families.len() as int);
        assert(families =~= before + one + after);
        lemma_previews_concat(c, before + one, after);
        lemma_previews_concat(c, before, one);
        assert(one.drop_last() =~= Seq::<Seq<char>>::empty());
        assert(one.last() == families[i]);
        assert(previews_of(c, one.drop_last()) =~= Seq::<char>::empty());
        assert(previews_of(c, one) == previews_of(c, one.drop_last()) + block_of(c, one.last()));
        assert(previews_of(c, one) =~= block_of(c, families[i]));
    }
}

/// Every page, with or without families, opens with the document type and
/// closes the `html` element last.
pub proof fn lemma_page_is_whole(c: char, families: Seq<Seq<char>>)
    ensures
        page_of(c, families).subrange(0, 15) == "<!DOCTYPE html>"@,
        page_of(c, families).subrange(
            page_of(c, families).len() - 8,
            page_of(c, families).len() as int,
        ) == "</html>\n"@,
{
    reveal_strlit("<!DOCTYPE html>\n<html>\n<head>\n<meta charset=\"utf-8\">\n<title>Font preview</title>\n<style>\n");
    reveal_strlit("</body>\n</html>\n");
    reveal_strlit("<!DOCTYPE html>");
    reveal_strlit("</html>\n");
    let p = page_of(c, families);
    let mid = STYLE@ + PAGE_BODY@ + previews_of(c, families);
    assert(p =~= PAGE_HEAD@ + mid + PAGE_TAIL@);
    assert(p.subrange(0, 15) =~= "<!DOCTYPE html>"@);
    assert(p.subrange(p.len() - 8, p.len() as int) =~= "</html>\n"@);
}

/// With no families the page is still whole: head, stylesheet, body and
/// tail, with an empty preview region.
pub proof fn lemma_empty_page(c: char)
    ensures
        page_of(c, Seq::empty()) == PAGE_HEAD@ + STYLE@ + PAGE_BODY@ + PAGE_TAIL@,
{
    assert(previews_of(c, Seq::empty()) =~= Seq::<char>::empty());
    assert(page_of(c, Seq::empty()) =~= PAGE_HEAD@ + STYLE@ + PAGE_BODY@ + PAGE_TAIL@);
}

/// Where the character stands in the block of `family`.
pub open spec fn char_position(family: Seq<char>) -> int {
    (BLOCK_OPEN@.len() + style_name(family).len() + BLOCK_CHAR@.len()) as int
}

/// A character with no meaning in markup, however many bytes it takes,
/// stands in every preview block as it is.
pub proof fn lemma_char_verbatim(c: char, family: Seq<char>)
    requires
        !is_markup_char(c),
    ensures
        block_of(c, family)[char_position(family)] == c,
{
    let b = block_of(c, family);
    let pre = BLOCK_OPEN@ + style_name(family) + BLOCK_CHAR@;
    assert(escape_char(c) == seq![c]);
    assert(b =~= pre + seq![c] + BLOCK_NAME@ + escape_text(family) + BLOCK_CLOSE@);
    assert(b[pre.len() as int] == c);
}

/// A family name stands in the font style of its block only as escaped
/// text: once the browser has decoded the HTML, it is the CSS-escaped name,
/// which holds no quote or line break to end the CSS string; and as HTML it
/// holds no character that opens or closes a tag or ends an attribute value.
pub proof fn lemma_family_is_text(c: char, family: Seq<char>)
    ensures
        block_of(c, family).subrange(
            BLOCK_OPEN@.len() as int,
            (BLOCK_OPEN@.len() + style_name(family).len()) as int,
        ) == escape_text(css_escape_text(family)),
        forall|i: int|
            0 <= i < css_escape_text(family).len() ==> {
                let x = #[trigger] css_escape_text(family)[i];
                x != '\'' && x != '\n' && x != '\r'
            },
        forall|i: int|
            0 <= i < style_name(family).len() ==> {
                let x = #[trigger] style_name(family)[i];
                x != '<' && x != '>' && x != '"' && x != '\''
            },
{
    lemma_css_escaped_stays_in_string(family);
    lemma_escaped_has_no_markup(css_escape_text(family));
    let b = block_of(c, family);
    let rest = BLOCK_CHAR@ + escape_char(c) + BLOCK_NAME@ + escape_text(family) + BLOCK_CLOSE@;
    assert(b =~= BLOCK_OPEN@ + style_name(family) + rest);
    assert(b.subrange(BLOCK_OPEN@.len() as int, (BLOCK_OPEN@.len() + style_name(family).len()) as int)
        =~= style_name(family));
}

/// In the caption of its block a family name stands as escaped text, which
/// holds no character that opens or closes a tag.
pub proof fn lemma_caption_is_text(c: char, family: Seq<char>)
    ensures
        block_of(c, family).subrange(
            char_position(family) + escape_char(c).len() + BLOCK_NAME@.len(),
            char_position(family) + escape_char(c).len() + BLOCK_NAME@.len() + escape_text(
                family,
            ).len(),
        ) == escape_text(family),
        forall|i: int|
            0 <= i < escape_text(family).len() ==> {
                let x = #[trigger] escape_text(family)[i];
                x != '<' && x != '>' && x != '"' && x != '\''
            },
{
    lemma_escaped_has_no_markup(family);
    let b = block_of(c, family);
    let pre = BLOCK_OPEN@ + style_name(family) + BLOCK_CHAR@ + escape_char(c) + BLOCK_NAME@;
    assert(b =~= pre + escape_text(family) + BLOCK_CLOSE@);
    assert(pre.len() == char_position(family) + escape_char(c).len() + BLOCK_NAME@.len());
    assert(b.subrange(pre.len() as int, (pre.len() + escape_text(family).len()) as int) =~= escape_text(
        family,
    ));
}

} // verus!
