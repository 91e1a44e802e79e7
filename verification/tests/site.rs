use termsite::blogpost::{BlogPost, Content as PostContent, Element as PostElement, InlineElement, PostDate};
use termsite::content::SshContent;
use termsite::project::{Content, Project, Skills};
use termsite::site::{get_home_page, get_themes_page, ContentError, SiteContent, Theme};

fn project(url: &[u8], name: &[u8]) -> Project {
    Project {
        name: name.to_vec(),
        url: url.to_vec(),
        description: b"what it is".to_vec(),
        date: b"2020".to_vec(),
        content: Content { sections: Vec::new() },
        thumbnail: Vec::new(),
        skills: Skills { skills: Vec::new() },
        priority: 1,
    }
}

fn post(year: i32, month: u32, day: u32, url: &[u8]) -> BlogPost {
    BlogPost {
        title: b"Title".to_vec(),
        url: url.to_vec(),
        date: PostDate { year, month, day },
        visibility: 1,
        tags: Vec::new(),
        content: PostContent {
            content: vec![PostElement::Paragraph {
                text: vec![InlineElement::Text { content: b"words".to_vec() }],
            }],
            footnotes: Vec::new(),
        },
    }
}

fn site() -> SiteContent {
    SiteContent {
        domain: b"example.org".to_vec(),
        subtitle: b"sub".to_vec(),
        about_me: b"me\nmyself".to_vec(),
        projects_caption: b"things".to_vec(),
        about_themes: b"colours".to_vec(),
        themes: vec![
            Theme { name: b"Dark".to_vec(), description: b"dark\ndarker".to_vec() },
            Theme { name: b"Light".to_vec(), description: b"light".to_vec() },
        ],
        projects: vec![project(b"zeta", b"Zeta"), project(b"alpha", b"Alpha")],
        blog_posts: vec![post(2023, 4, 5, b"first"), post(2024, 12, 31, b"second")],
    }
}

fn names(content: &SshContent, dir: usize) -> Vec<Vec<u8>> {
    let files = &content.get(dir).files;
    (0..files.len()).map(|i| files.name_at(i).clone()).collect()
}

#[test]
fn the_file_system_has_the_two_pages_and_two_directories() {
    let content = SshContent::new(&site()).unwrap();
    assert_eq!(content.directories.len(), 3);
    assert_eq!(content.dir_index_at(b"/projects"), Some(1));
    assert_eq!(content.dir_index_at(b"/blog"), Some(2));
    assert_eq!(names(&content, 0), vec![b"home.txt".to_vec(), b"themes.txt".to_vec()]);
    assert_eq!(content.get(1).path, b"/projects".to_vec());
    assert_eq!(content.get(2).path, b"/blog".to_vec());
}

#[test]
fn each_project_has_a_file_with_cr_lf_line_ends() {
    let content = SshContent::new(&site()).unwrap();
    assert_eq!(names(&content, 1), vec![b"alpha.txt".to_vec(), b"zeta.txt".to_vec()]);
    let zeta = content.get_file(0, b"projects/zeta.txt").unwrap();
    assert_eq!(
        zeta.raw_contents(),
        b"=== Zeta ===\r\nhttps://example.org/projects/zeta\r\nwhat it is\r\n2020\r\nSkills:\r\n============\r\n\r\n"
    );
    assert_eq!(zeta.lines.len(), 8);
    assert_eq!(zeta.lines[0], b"=== Zeta ===".to_vec());
    assert_eq!(zeta.lines[7], Vec::<u8>::new());
}

#[test]
fn each_blog_post_has_a_file_named_by_its_day() {
    let content = SshContent::new(&site()).unwrap();
    assert_eq!(
        names(&content, 2),
        vec![b"20230405_first.txt".to_vec(), b"20241231_second.txt".to_vec()]
    );
    assert_eq!(
        content.get_file(2, b"20230405_first.txt").unwrap().raw_contents(),
        b"=== Title ===\r\nhttps://example.org/projects/first\r\n2023-04-05\r\n\r\nwords\r\n\r\n\r\n\r\n"
    );
}

#[test]
fn a_day_that_the_calendar_does_not_have_is_refused() {
    let mut site = site();
    site.blog_posts.push(post(2023, 2, 29, b"bad"));
    site.blog_posts.push(post(2023, 13, 1, b"worse"));
    match SshContent::new(&site) {
        Err(error) => assert_eq!(error, ContentError::InvalidDate { post: 2 }),
        Ok(_) => panic!("built with a bad day"),
    }
}

#[test]
fn a_leap_day_is_a_day() {
    let mut site = site();
    site.blog_posts = vec![post(2024, 2, 29, b"leap")];
    let content = SshContent::new(&site).unwrap();
    assert_eq!(names(&content, 2), vec![b"20240229_leap.txt".to_vec()]);
}

#[test]
fn no_projects_and_no_posts_give_empty_directories() {
    let mut site = site();
    site.projects.clear();
    site.blog_posts.clear();
    let content = SshContent::new(&site).unwrap();
    assert_eq!(content.get(1).files.len(), 0);
    assert_eq!(content.get(2).files.len(), 0);
    assert_eq!(content.get(0).directories.len(), 2);
}

#[test]
fn a_later_project_of_the_same_name_wins() {
    let mut site = site();
    site.projects.push(project(b"zeta", b"Zeta again"));
    let content = SshContent::new(&site).unwrap();
    assert_eq!(names(&content, 1), vec![b"alpha.txt".to_vec(), b"zeta.txt".to_vec()]);
    assert_eq!(content.get_file(1, b"zeta.txt").unwrap().lines[0], b"=== Zeta again ===".to_vec());
}

#[test]
fn home_page_holds_the_site_texts() {
    let page = get_home_page(&site());
    let text = String::from_utf8(page).unwrap();
    assert!(text.starts_with("\r\nFFFFFFFFFFFFFFF     LLLL"));
    assert!(text.ends_with(
        "# Fletch Rydell\r\n*sub*\r\n\r\n## About me\r\nme\r\nmyself\r\n\r\n## Projects\r\nthings\r\nSEE FILESYSTEM\r\n\r\n"
    ));
    assert!(text.contains("HHHH       HHHH\r\n    \r\nRYDELL. There, it's done."));
    assert!(text.contains("not much use in this version:\r\n\r\n# Fletch Rydell"));
    assert!(!text.replace("\r\n", "").contains('\n'));
}

#[test]
fn themes_page_lists_the_themes() {
    let page = get_themes_page(&site());
    let text = String::from_utf8(page).unwrap();
    assert!(text.starts_with("NOTE: This page is about the themes available on the HTTP version"));
    assert!(text.ends_with(
        "content from the HTTP site.\r\n\r\n# Themes\r\n## About Themes\r\ncolours\r\n\r\n## Dark\r\ndark\r\ndarker\r\n\r\n## Light\r\nlight\r\n\r\n"
    ));
}

#[test]
fn pages_are_what_the_files_hold() {
    let site = site();
    let content = SshContent::new(&site).unwrap();
    assert_eq!(content.get_file(0, b"home.txt").unwrap().raw_contents(), &get_home_page(&site)[..]);
    assert_eq!(content.get_file(0, b"/themes.txt").unwrap().raw_contents(), &get_themes_page(&site)[..]);
}
