//! What the file system is built from: the site's content, the two pages
//! that are written here, and the snapshot itself.
use crate::blogpost::BlogPost;
use crate::content::{inserted, File, NameMap, SshContent};
use crate::project::Project;
use crate::text::{expand_lf, push_bytes, push_str, with_crlf, LF, SLASH};
use vstd::prelude::*;
use vstd::string::StringSliceAdditionalSpecFns;

verus! {

/// The banner at the top of the home page.
pub const ASCII_ART: &'static str = "\nFFFFFFFFFFFFFFF     LLLL               EEEEEEEEEEEEEEE     TTTTTTTTTTTTTT     CCCCCCCCCCCCCC     HHHH       HHHH\nFFFFFFFFFFFFFFF     LLLL               EEEEEEEEEEEEEEE     TTTTTTTTTTTTTT     CCCCCCCCCCCCCC     HHHH       HHHH\nFFFF                LLLL               EEEE                     TTTT          CCCC               HHHH       HHHH\nFFFF                LLLL               EEEE                     TTTT          CCCC               HHHH       HHHH\nFFFFFFFFFFFFF       LLLL               EEEEEEEEEEEEEEE          TTTT          CCCC               HHHHHHHHHHHHHHH\nFFFFFFFFFFFFF       LLLL               EEEEEEEEEEEEEEE          TTTT          CCCC               HHHHHHHHHHHHHHH\nFFFF                LLLL               EEEE                     TTTT          CCCC               HHHH       HHHH\nFFFF                LLLL               EEEE                     TTTT          CCCC               HHHH       HHHH\nFFFF                LLLLLLLLLLLLLL     EEEEEEEEEEEEEEE          TTTT          CCCCCCCCCCCCCC     HHHH       HHHH\nFFFF                LLLLLLLLLLLLLL     EEEEEEEEEEEEEEE          TTTT          CCCCCCCCCCCCCC     HHHH       HHHH\n    ";

/// What follows the banner on the home page.
pub const INTRO_BLURB: &'static str = "RYDELL. There, it's done. Manuallying typeing ASCII art is a pain, and what's the point if it probably won't even fit on your stupid 80x24 terminal?\nAnyway, welcome to my website! Congratulations for SSHing into my server and opening this page (and even more congratulations to me for making this work in real life!).\nThe goal of this SSH-based website to be another version of the HTTP-based site, accessible from the command line. So, all the content should be the exact same across both sites, just with different presentation.\nObviously, that's not completely true (see this text), but that's the idea. So, some things may seem strange, but it's all in the name of including all content from the HTTP site. When it's particularly confusing, I'll leave a note at the top of the file reminding you what function the content serves on the HTTP site.\n\nIn this case, the entire idea of the home page is to be a landing page for the site with links to all the other pages, which doesn't translate well to SSH version. So, I've replaced all the links and lists of links with \"SEE FILESYSTEM\", because that's the only way to navigate the site. It's more fun to explore that way!\nSo, go ahead and explore the site! You can find the home page content below, but as mentioned, it's not much use in this version:";

pub const HOME_TITLE: &'static str = "# Fletch Rydell\n*";

pub const HOME_ABOUT: &'static str = "*\n\n## About me\n";

pub const HOME_PROJECTS: &'static str = "\n\n## Projects\n";

pub const HOME_TAIL: &'static str = "\nSEE FILESYSTEM\n\n";

/// What the themes page begins with.
pub const THEMES_DISCLAIMER: &'static str = "NOTE: This page is about the themes available on the HTTP version of the site. There are no themes here, but this page is still here to uphold my promise of including all content from the HTTP site.";

pub const THEMES_HEAD: &'static str = "\n\n# Themes\n## About Themes\n";

pub const THEME_HEAD: &'static str = "## ";

/// The name of the home page's file.
pub const HOME_FILE: &'static str = "home.txt";

/// The name of the themes page's file.
pub const THEMES_FILE: &'static str = "themes.txt";

/// The name of the directory of projects.
pub const PROJECTS_DIR: &'static str = "projects";

/// The name of the directory of blog posts.
pub const BLOG_DIR: &'static str = "blog";

/// What every page's file name ends in.
pub const TEXT_SUFFIX: &'static str = ".txt";

/// One colour theme of the site.
#[derive(Debug, PartialEq, Eq)]
pub struct Theme {
    pub name: Vec<u8>,
    pub description: Vec<u8>,
}

/// The site's content.
#[derive(Debug, PartialEq, Eq)]
pub struct SiteContent {
    /// The name of the site, as links show it.
    pub domain: Vec<u8>,
    /// The line under the site's title.
    pub subtitle: Vec<u8>,
    /// The author about the author.
    pub about_me: Vec<u8>,
    /// What stands above the list of projects.
    pub projects_caption: Vec<u8>,
    /// What the themes page says about themes.
    pub about_themes: Vec<u8>,
    pub themes: Vec<Theme>,
    pub projects: Vec<Project>,
    pub blog_posts: Vec<BlogPost>,
}

/// Why no file system could be built.
#[derive(Clone, Copy, Debug, PartialEq, Eq, Structural)]
pub enum ContentError {
    /// The blog post at this position appeared on a day that the calendar
    /// does not have.
    InvalidDate { post: usize },
}

/// The home page, with line feeds between its lines.
pub open spec fn home_text(site: SiteContent) -> Seq<u8> {
    ASCII_ART.spec_bytes() + seq![LF] + INTRO_BLURB.spec_bytes() + seq![LF, LF]
        + HOME_TITLE.spec_bytes() + site.subtitle@ + HOME_ABOUT.spec_bytes() + site.about_me@
        + HOME_PROJECTS.spec_bytes() + site.projects_caption@ + HOME_TAIL.spec_bytes()
}

/// The themes page's part on each theme: a heading with its name, then
/// its description and an empty line.
pub open spec fn theme_entries(themes: Seq<Theme>) -> Seq<u8>
    decreases themes.len(),
{
    if themes.len() == 0 {
        Seq::empty()
    } else {
        theme_entries(themes.drop_last()) + THEME_HEAD.spec_bytes() + themes.last().name@ + seq![LF]
            + themes.last().description@ + seq![LF, LF]
    }
}

/// The themes page, with line feeds between its lines.
pub open spec fn themes_text(site: SiteContent) -> Seq<u8> {
    THEMES_DISCLAIMER.spec_bytes() + THEMES_HEAD.spec_bytes() + site.about_themes@ + seq![LF, LF]
        + theme_entries(site.themes@)
}

/// The home page as its file holds it: CR LF between the lines.
pub fn get_home_page(site: &SiteContent) -> (r: Vec<u8>)
    ensures
        r@ == expand_lf(home_text(*site)),
{
    let mut page: Vec<u8> = Vec::new();
    push_str(&mut page, ASCII_ART);
    page.push(LF);
    push_str(&mut page, INTRO_BLURB);
    page.push(LF);
    page.push(LF);
    push_str(&mut page, HOME_TITLE);
    push_bytes(&mut page, site.subtitle.as_slice());
    push_str(&mut page, HOME_ABOUT);
    push_bytes(&mut page, site.about_me.as_slice());
    push_str(&mut page, HOME_PROJECTS);
    push_bytes(&mut page, site.projects_caption.as_slice());
    push_str(&mut page, HOME_TAIL);
    assert(page@ =~= home_text(*site));
    with_crlf(page.as_slice())
}

/// The themes page as its file holds it: CR LF between the lines.
pub fn get_themes_page(site: &SiteContent) -> (r: Vec<u8>)
    ensures
        r@ == expand_lf(themes_text(*site)),
{
    let mut page: Vec<u8> = Vec::new();
    push_str(&mut page, THEMES_DISCLAIMER);
    push_str(&mut page, THEMES_HEAD);
    push_bytes(&mut page, site.about_themes.as_slice());
    page.push(LF);
    page.push(LF);
    let ghost head = page@;
    let n = site.themes.len();
    let mut i: usize = 0;
    assert(site.themes@.take(0) =~= Seq::<Theme>::empty());
    assert(page@ =~= head + theme_entries(site.themes@.take(0)));
    while i < n
        invariant
            i <= n,
            n == site.themes@.len(),
            page@ == head + theme_entries(site.themes@.take(i as int)),
        decreases n - i,
    {
        proof {
            let upto = site.themes@.take(i + 1);
            assert(upto.drop_last() =~= site.themes@.take(i as int));
            assert(upto.last() == site.themes@[i as int]);
        }
        push_str(&mut page, THEME_HEAD);
        push_bytes(&mut page, site.themes[i].name.as_slice());
        page.push(LF);
        push_bytes(&mut page, site.themes[i].description.as_slice());
        page.push(LF);
        page.push(LF);
        i += 1;
        assert(page@ =~= head + theme_entries(site.themes@.take(i as int)));
    }
    assert(site.themes@.take(n as int) =~= site.themes@);
    assert(page@ =~= themes_text(*site));
    with_crlf(page.as_slice())
}

/// The name of a project's file: the project's name and `.txt`.
pub open spec fn project_file_name(project: Project) -> Seq<u8> {
    project.url@ + TEXT_SUFFIX.spec_bytes()
}

/// The name of a blog post's file: its day, `_`, the post's name and
/// `.txt`.
pub open spec fn blog_file_name(post: BlogPost) -> Seq<u8> {
    post.date.spec_stamp()->0 + seq![95u8] + post.url@ + TEXT_SUFFIX.spec_bytes()
}

/// Names and contents of the files of the projects directory: one file
/// per project, which holds the project's page with CR LF between its
/// lines. A later project takes the place of an earlier one of the same
/// name.
pub open spec fn project_files(projects: Seq<Project>, domain: Seq<u8>) -> (
    Seq<Seq<u8>>,
    Seq<Seq<u8>>,
)
    decreases projects.len(),
{
    if projects.len() == 0 {
        (Seq::empty(), Seq::empty())
    } else {
        let before = project_files(projects.drop_last(), domain);
        inserted(
            before.0,
            before.1,
            project_file_name(projects.last()),
            expand_lf(projects.last().spec_text(domain)),
        )
    }
}

/// Names and contents of the files of the blog directory: one file per
/// post, which holds the post's page with CR LF between its lines.
pub open spec fn blog_files(posts: Seq<BlogPost>, domain: Seq<u8>) -> (Seq<Seq<u8>>, Seq<Seq<u8>>)
    decreases posts.len(),
{
    if posts.len() == 0 {
        (Seq::empty(), Seq::empty())
    } else {
        let before = blog_files(posts.drop_last(), domain);
        inserted(
            before.0,
            before.1,
            blog_file_name(posts.last()),
            expand_lf(posts.last().spec_text(domain)),
        )
    }
}

/// The position of the first blog post whose day the calendar does not
/// have, or the number of posts where it has them all.
pub open spec fn first_undated(posts: Seq<BlogPost>) -> int
    decreases posts.len(),
{
    if posts.len() == 0 {
        0
    } else {
        let before = first_undated(posts.drop_last());
        if before < posts.len() - 1 {
            before
        } else if !posts.last().date.is_day() {
            posts.len() - 1
        } else {
            posts.len() as int
        }
    }
}

/// The contents of each file.
pub open spec fn contents_of(files: Seq<File>) -> Seq<Seq<u8>> {
    Seq::new(files.len(), |i: int| files[i].contents@)
}

/// Names and contents of the files of a directory.
pub open spec fn files_of(map: NameMap<File>) -> (Seq<Seq<u8>>, Seq<Seq<u8>>) {
    (map.names(), contents_of(map.values()))
}

/// Names and places of the sub-directories of a directory.
pub open spec fn children_of(map: NameMap<usize>) -> (Seq<Seq<u8>>, Seq<usize>) {
    (map.names(), map.values())
}

/// Whether `content` is the file system of `site`: the root with the home
/// page, the themes page and two directories, one file per project in
/// the first and one per blog post in the second.
pub open spec fn built_from(content: SshContent, site: SiteContent) -> bool {
    let root = content.directories@[0];
    let projects = content.directories@[1];
    let blog = content.directories@[2];
    let none = Seq::<Seq<u8>>::empty();
    &&& content.wf()
    &&& content.directories@.len() == 3
    &&& root.path@ == seq![SLASH]
    &&& root.parent is None
    &&& children_of(root.directories) == ({
        let first = inserted(none, Seq::<usize>::empty(), PROJECTS_DIR.spec_bytes(), 1usize);
        inserted(first.0, first.1, BLOG_DIR.spec_bytes(), 2usize)
    })
    &&& files_of(root.files) == ({
        let first = inserted(none, none, HOME_FILE.spec_bytes(), expand_lf(home_text(site)));
        inserted(first.0, first.1, THEMES_FILE.spec_bytes(), expand_lf(themes_text(site)))
    })
    &&& projects.path@ == seq![SLASH] + PROJECTS_DIR.spec_bytes()
    &&& projects.parent == Some(0usize)
    &&& projects.directories.names().len() == 0
    &&& files_of(projects.files) == project_files(site.projects@, site.domain@)
    &&& blog.path@ == seq![SLASH] + BLOG_DIR.spec_bytes()
    &&& blog.parent == Some(0usize)
    &&& blog.directories.names().len() == 0
    &&& files_of(blog.files) == blog_files(site.blog_posts@, site.domain@)
}

/// Putting a file into a directory puts its contents among the contents.
pub proof fn lemma_inserted_contents(
    names: Seq<Seq<u8>>,
    files: Seq<File>,
    name: Seq<u8>,
    file: File,
)
    requires
        names.len() == files.len(),
    ensures
        inserted(names, contents_of(files), name, file.contents@) == (
            inserted(names, files, name, file).0,
            contents_of(inserted(names, files, name, file).1),
        ),
{
    let a = inserted(names, contents_of(files), name, file.contents@);
    let b = inserted(names, files, name, file);
    crate::text::lemma_rank_bounds(names, name);
    assert(a.0 =~= b.0);
    assert(a.1 =~= contents_of(b.1));
}

/// The bytes of the text `s`.
fn bytes_of(s: &str) -> (r: Vec<u8>)
    ensures
        r@ == s.spec_bytes(),
{
    let mut r: Vec<u8> = Vec::new();
    push_str(&mut r, s);
    r
}

impl SshContent {
    /// Builds the file system of `site`. It fails where a blog post
    /// appeared on a day that the calendar does not have, and names the
    /// first such post.
    pub fn new(site: &SiteContent) -> (r: Result<SshContent, ContentError>)
        ensures
            match r {
                Ok(content) => first_undated(site.blog_posts@) == site.blog_posts@.len()
                    && built_from(content, *site),
                Err(ContentError::InvalidDate { post }) => post == first_undated(site.blog_posts@)
                    && post < site.blog_posts@.len(),
            },
    {
        let mut result = SshContent::empty();
        let ghost none = Seq::<Seq<u8>>::empty();
        assert(result.directories@[0].wf(1));
        assert(result.directories@[0].files.names() =~= none);
        assert(result.directories@[0].files.values() =~= Seq::<File>::empty());
        assert(result.directories@[0].directories.names() =~= none);
        assert(result.directories@[0].directories.values() =~= Seq::<usize>::empty());
        assert(contents_of(Seq::<File>::empty()) =~= none);

        let home = File::from_bytes(get_home_page(site));
        proof {
            lemma_inserted_contents(none, Seq::<File>::empty(), HOME_FILE.spec_bytes(), home);
        }
        result.add_file(0, bytes_of(HOME_FILE), home);
        let ghost with_home = result.directories@[0].files;
        let themes = File::from_bytes(get_themes_page(site));
        proof {
            assert(result.directories@[0].wf(1));
            lemma_inserted_contents(
                with_home.names(),
                with_home.values(),
                THEMES_FILE.spec_bytes(),
                themes,
            );
        }
        result.add_file(0, bytes_of(THEMES_FILE), themes);
        let ghost root_files = files_of(result.directories@[0].files);

        let projects_i = result.add_child(0, bytes_of(PROJECTS_DIR));
        let n = site.projects.len();
        let mut i: usize = 0;
        assert(site.projects@.take(0) =~= Seq::<Project>::empty());
        assert(result.directories@[1].files.names() =~= none);
        assert(result.directories@[1].files.values() =~= Seq::<File>::empty());
        assert(result.directories@[1].path@ =~= seq![SLASH] + PROJECTS_DIR.spec_bytes());
        let ghost root_one = result.directories@[0];
        while i < n
            invariant
                i <= n,
                n == site.projects@.len(),
                projects_i == 1,
                result.wf(),
                result.directories@.len() == 2,
                result.directories@[0] == root_one,
                result.directories@[1].path@ == seq![SLASH] + PROJECTS_DIR.spec_bytes(),
                result.directories@[1].parent == Some(0usize),
                result.directories@[1].directories.names().len() == 0,
                files_of(result.directories@[1].files) == project_files(
                    site.projects@.take(i as int),
                    site.domain@,
                ),
            decreases n - i,
        {
            let project = &site.projects[i];
            let mut name: Vec<u8> = Vec::new();
            push_bytes(&mut name, project.url.as_slice());
            push_str(&mut name, TEXT_SUFFIX);
            let page = project.to_text(site.domain.as_slice());
            let file = File::from_bytes(with_crlf(page.as_slice()));
            proof {
                let upto = site.projects@.take(i + 1);
                assert(upto.drop_last() =~= site.projects@.take(i as int));
                assert(upto.last() == site.projects@[i as int]);
                assert(name@ =~= project_file_name(site.projects@[i as int]));
                let files = result.directories@[1].files;
                assert(result.directories@[1].wf(2));
                lemma_inserted_contents(files.names(), files.values(), name@, file);
            }
            result.add_file(projects_i, name, file);
            i += 1;
        }
        assert(site.projects@.take(n as int) =~= site.projects@);

        let blog_i = result.add_child(0, bytes_of(BLOG_DIR));
        let m = site.blog_posts.len();
        let mut j: usize = 0;
        assert(site.blog_posts@.take(0) =~= Seq::<BlogPost>::empty());
        assert(result.directories@[2].files.names() =~= none);
        assert(result.directories@[2].files.values() =~= Seq::<File>::empty());
        assert(result.directories@[2].path@ =~= seq![SLASH] + BLOG_DIR.spec_bytes());
        let ghost root_two = result.directories@[0];
        let ghost projects_done = result.directories@[1];
        while j < m
            invariant
                j <= m,
                m == site.blog_posts@.len(),
                blog_i == 2,
                result.wf(),
                result.directories@.len() == 3,
                result.directories@[0] == root_two,
                result.directories@[1] == projects_done,
                result.directories@[2].path@ == seq![SLASH] + BLOG_DIR.spec_bytes(),
                result.directories@[2].parent == Some(0usize),
                result.directories@[2].directories.names().len() == 0,
                first_undated(site.blog_posts@.take(j as int)) == j,
                files_of(result.directories@[2].files) == blog_files(
                    site.blog_posts@.take(j as int),
                    site.domain@,
                ),
            decreases m - j,
        {
            let post = &site.blog_posts[j];
            proof {
                let upto = site.blog_posts@.take(j + 1);
                assert(upto.drop_last() =~= site.blog_posts@.take(j as int));
                assert(upto.last() == site.blog_posts@[j as int]);
            }
            let mut name = match post.date.stamp() {
                Some(stamp) => stamp,
                None => {
                    proof {
                        lemma_first_undated_prefix(site.blog_posts@, j + 1);
                    }
                    return Err(ContentError::InvalidDate { post: j });
                },
            };
            let page = match post.to_text(site.domain.as_slice()) {
                Some(page) => page,
                None => {
                    proof {
                        lemma_first_undated_prefix(site.blog_posts@, j + 1);
                    }
                    return Err(ContentError::InvalidDate { post: j });
                },
            };
            name.push(95);
            push_bytes(&mut name, post.url.as_slice());
            push_str(&mut name, TEXT_SUFFIX);
            let file = File::from_bytes(with_crlf(page.as_slice()));
            proof {
                assert(name@ =~= blog_file_name(site.blog_posts@[j as int]));
                let files = result.directories@[2].files;
                assert(result.directories@[2].wf(3));
                lemma_inserted_contents(files.names(), files.values(), name@, file);
            }
            result.add_file(blog_i, name, file);
            j += 1;
        }
        assert(site.blog_posts@.take(m as int) =~= site.blog_posts@);
        Ok(result)
    }
}

/// Once a post without a day is found among the first `k` posts, it is
/// the first such post of all.
pub proof fn lemma_first_undated_prefix(posts: Seq<BlogPost>, k: int)
    requires
        0 <= k <= posts.len(),
        first_undated(posts.take(k)) < k,
    ensures
        first_undated(posts) == first_undated(posts.take(k)),
    decreases posts.len() - k,
{
    if k < posts.len() {
        let next = posts.take(k + 1);
        assert(next.drop_last() =~= posts.take(k));
        lemma_first_undated_prefix(posts, k + 1);
    } else {
        assert(posts.take(k) =~= posts);
    }
}

} // verus!
