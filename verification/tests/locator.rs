use dart_unused::locator::{get_locator, get_locator_alt, locator, register_locator, Locator};

    #[test]
    fn test_locator() {
        let input = r#"register<GetIt>();"#;
        let result = register_locator(input);
        assert_eq!(result, Ok(("();", Locator::Register("GetIt".to_string()))));
    }

    #[test]
    fn test_locator_singleton() {
        let input = r#"registerLazySingleton<GetIt>();"#;
        let result = register_locator(input);
        assert_eq!(result, Ok(("();", Locator::Register("GetIt".to_string()))));
    }

    #[test]
    fn test_locator_factory() {
        let input = r#"registerFactory<GetIt>();"#;
        let result = register_locator(input);
        assert_eq!(result, Ok(("();", Locator::Register("GetIt".to_string()))));
    }

    #[test]
    fn test_locator_parent() {
        let input = r#"locator.register<GetIt>();"#;
        let result = get_locator(input);
        assert_eq!(result, Ok(("();", Locator::Register("GetIt".to_string()))));
    }

    #[test]
    fn test_locator_singleton_parent() {
        let input = r#"locator.registerLazySingleton<GetIt>();"#;
        let result = get_locator(input);
        assert_eq!(result, Ok(("();", Locator::Register("GetIt".to_string()))));
    }

    #[test]
    fn test_locator_factory_parent() {
        let input = r#"locator.registerFactory<GetIt>();"#;
        let result = get_locator(input);
        assert_eq!(result, Ok(("();", Locator::Register("GetIt".to_string()))));
    }

    #[test]
    fn test_get_locator() {
        let input = r#"locator.get<GetIt>();"#;
        let result = get_locator(input);
        assert_eq!(result, Ok(("();", Locator::Get("GetIt".to_string()))));
    }

    #[test]
    fn test_get_locator_alt() {
        let input = r#"locator<GetIt>();"#;
        let result = get_locator_alt(input);
        assert_eq!(result, Ok((">();", Locator::Get("GetIt".to_string()))));
    }

    #[test]
    fn test_get_locator_in_register() {
        let input = r#"  locator.registerFactory<CreditApplicationContractBloc>(
      () => CreditApplicationContractBloc(locator.get<DownloadContractUseCase>(),
       locator<DownloadContractsUseCase>()));"#;
        let result = locator(input);
        assert_eq!(
            result,
            (
                ">()));",
                vec![
                    Locator::Register("CreditApplicationContractBloc".to_string()),
                    Locator::Get("DownloadContractUseCase".to_string()),
                    Locator::Get("DownloadContractsUseCase".to_string())
                ]
            )
        );
    }

    #[test]
    fn test_locators_multiple() {
        let input = r#"
    locator.registerLazySingleton<ChatPageBloc>(() => ChatPageBloc(
      locator<UserInfoNotifier>(),
      locator<ChatConnectionNotifier>(),
      domain.createWebSocketConnectionUseCase,
      domain.startChatUseCase,
      domain.handleIncomingWebsocketUseCase,
      domain.sendMessageUseCase,
      domain.disconnectAllUseCase,
      domain.getAttachmentUseCase,
      domain.sendAttachmentUseCase,
      domain.createChatCacheUseCase,
      domain.updateChatCacheUseCase,
      appConfig.testMode));"#;

        let result = locator(input);
        assert_eq!(
            result,
            (
                r#">(),
      domain.createWebSocketConnectionUseCase,
      domain.startChatUseCase,
      domain.handleIncomingWebsocketUseCase,
      domain.sendMessageUseCase,
      domain.disconnectAllUseCase,
      domain.getAttachmentUseCase,
      domain.sendAttachmentUseCase,
      domain.createChatCacheUseCase,
      domain.updateChatCacheUseCase,
      appConfig.testMode));"#,
                vec![
                    Locator::Register("ChatPageBloc".to_string()),
                    Locator::Get("UserInfoNotifier".to_string()),
                    Locator::Get("ChatConnectionNotifier".to_string())
                ]
            )
        );
    }

    #[test]
    fn test_file_contents() {
        let input = r#"import 'package:olympus/core/core.dart';
import 'package:olympus/core/logger/app_logger.dart';
import 'package:olympus/core/notifiers/chat_connection_notifier.dart';
import 'package:olympus/core/notifiers/user_info_notifier.dart';
import 'package:olympus/domain/domain_service_operations.dart';
import 'package:olympus/presentation/app/app_config.dart';
import 'package:olympus/presentation/features/chat/bloc/chat_page_bloc.dart';
import 'package:olympus/presentation/features/chat_menu/bloc/chat_menu_bloc.dart';
import 'package:olympus/presentation/features/chat_menu_message_history/bloc/chat_menu_message_history_bloc.dart';
import 'package:olympus/presentation/features/chat_schedule_callback_slots_available/bloc/chat_schedule_callback_bloc.dart';
import 'package:olympus/presentation/features/chat_view_schedule_callback/bloc/view_schedule_callback_bloc.dart';
import 'package:olympus/presentation/features/faq_categories/bloc/faq_categories_page_bloc.dart';
import 'package:olympus/presentation/features/faq_drawer_search/bloc/faq_drawer_search_bloc.dart';
import 'package:olympus/presentation/features/faq_products/bloc/faq_products_page_bloc.dart';
import 'package:olympus/presentation/features/faq_search/bloc/faq_search_page_bloc.dart';
import 'package:olympus/presentation/features/faq_tell_me_more/bloc/faq_tell_me_more_bloc.dart';
import 'package:olympus/presentation/features/notifications/bloc/notification_page_bloc.dart';
import 'package:olympus/presentation/features/notifications_messages/bloc/notifications_messages_bloc.dart';
import 'package:olympus/presentation/features/order_tracking_status/bloc/order_tracking_status_bloc.dart';
import 'package:olympus/presentation/features/order_tracking_status_list/bloc/order_tracking_status_list_bloc.dart';
import 'package:olympus/presentation/util/locator.dart';

Future<void> serviceOperationsLocator(
    {required CoreSubModule core,
    required AppConfig appConfig,
    required ServiceOperationsDomainModule domain}) async {
  locator.registerLazySingleton<ChatConnectionNotifier>(
      () => ChatConnectionNotifier(domain.disconnectAllUseCase));

  // FAQ
  locator.registerFactory<FAQProductPageBloc>(
    () => FAQProductPageBloc(
        domain.getMostAskedFaqUseCase, domain.getMainFaqCategoriesUseCase, locator.get<AppLogger>()),
  );

  locator.registerFactory<FAQCategoryPageBloc>(
    () => FAQCategoryPageBloc(domain.getFaqCategoriesListUseCase),
  );
  locator.registerFactory<FAQSearchPageBloc>(
    () => FAQSearchPageBloc(
        domain.getFaqProductsUseCase, domain.getFaqCategoriesUseCase, domain.getFaqCategoriesListUseCase),
  );

  locator.registerFactory<FAQTellMeMorePageBloc>(
    () => FAQTellMeMorePageBloc(),
  );

  locator.registerFactory<FaqDrawerSearchBloc>(
    () => FaqDrawerSearchBloc(
        domain.getMostAskedFaqUseCase, domain.getFaqProductsUseCase, locator.get<AppLogger>()),
  );

  //Notifications
  locator.registerFactory<NotificationsPageBloc>(() => NotificationsPageBloc(
        domain.getNotificationsUseCase,
        domain.notificationStatusUpdateUseCase,
        locator.get<UserInfoNotifier>(),
      ));

  locator.registerFactory<NotificationsMessagesBloc>(() => NotificationsMessagesBloc(
        domain.notificationStatusUpdateUseCase,
        locator.get<UserInfoNotifier>(),
      ));

  //Chat + Schedule callback
  locator.registerLazySingleton<ChatPageBloc>(() => ChatPageBloc(
      locator<UserInfoNotifier>(),
      locator<ChatConnectionNotifier>(),
      domain.createWebSocketConnectionUseCase,
      domain.startChatUseCase,
      domain.handleIncomingWebsocketUseCase,
      domain.sendMessageUseCase,
      domain.disconnectAllUseCase,
      domain.getAttachmentUseCase,
      domain.sendAttachmentUseCase,
      domain.createChatCacheUseCase,
      domain.updateChatCacheUseCase,
      appConfig.testMode));

  locator.registerFactory<ChatMenuBloc>(() => ChatMenuBloc(
        createChatCacheUseCase: domain.createChatCacheUseCase,
        readChatCacheUseCase: domain.readChatCacheUseCase,
        readAllChatCacheUseCase: domain.readAllChatCacheUseCase,
        updateChatCacheUseCase: domain.updateChatCacheUseCase,
        deleteChatCacheUseCase: domain.deleteChatCacheUseCase,
        disconnectAllUseCase: domain.disconnectAllUseCase,
        chatConnectionNotifier: locator<ChatConnectionNotifier>(),
      ));

  locator.registerFactory<ChatScheduleCallbackBloc>(() => ChatScheduleCallbackBloc(
      domain.scheduleCallbackUseCase,
      domain.getSlotsUseCase,
      domain.deleteScheduledCallbackUseCase,
      domain.updateScheduledCallbackUseCase,
      domain.getScheduledCallbackUseCase));

  locator.registerFactory<ViewScheduleCallbackBloc>(() => ViewScheduleCallbackBloc(
      domain.getSlotsUseCase,
      domain.deleteScheduledCallbackUseCase,
      domain.updateScheduledCallbackUseCase,
      domain.scheduleCallbackUseCase,
      locator<UserInfoNotifier>()));

  locator.registerFactory<ChatMenuMessageHistoryBloc>(() => ChatMenuMessageHistoryBloc(
        disconnectAllUseCase: domain.disconnectAllUseCase,
        chatConnectionNotifier: locator<ChatConnectionNotifier>(),
      ));

  //Order tracking
  locator.registerFactory<OrderTrackingStatusListBloc>(() => OrderTrackingStatusListBloc(
        searchOrdersUseCase: domain.searchOrdersUseCase,
      ));
  locator.registerFactory<OrderTrackingStatusBloc>(() => OrderTrackingStatusBloc(
        getOrderUseCase: domain.getOrderUseCase,
      ));
}
"#;

        let result = locator(input);

        assert_eq!(
            result,
            (
                "(() => OrderTrackingStatusBloc(\n        getOrderUseCase: domain.getOrderUseCase,\n      ));\n}\n",
                vec![
                    Locator::Import,
                    Locator::Register("ChatConnectionNotifier".to_string()),
                    Locator::Register("FAQProductPageBloc".to_string()),
                    Locator::Get("AppLogger".to_string()),
                    Locator::Register("FAQCategoryPageBloc".to_string()),
                    Locator::Register("FAQSearchPageBloc".to_string()),
                    Locator::Register("FAQTellMeMorePageBloc".to_string()),
                    Locator::Register("FaqDrawerSearchBloc".to_string()),
                    Locator::Get("AppLogger".to_string()),
                    Locator::Register("NotificationsPageBloc".to_string()),
                    Locator::Get("UserInfoNotifier".to_string()),
                    Locator::Register("NotificationsMessagesBloc".to_string()),
                    Locator::Get("UserInfoNotifier".to_string()),
                    Locator::Register("ChatPageBloc".to_string()),
                    Locator::Register("ChatMenuBloc".to_string()),
                    Locator::Register("ChatScheduleCallbackBloc".to_string()),
                    Locator::Register("ViewScheduleCallbackBloc".to_string()),
                    Locator::Register("ChatMenuMessageHistoryBloc".to_string()),
                    Locator::Register("OrderTrackingStatusListBloc".to_string()),
                    Locator::Register("OrderTrackingStatusBloc".to_string()),
                    Locator::Get("UserInfoNotifier".to_string()),
                    Locator::Get("ChatConnectionNotifier".to_string()),
                    Locator::Get("ChatConnectionNotifier".to_string()),
                    Locator::Get("UserInfoNotifier".to_string()),
                    Locator::Get("ChatConnectionNotifier".to_string()),
                ]
            )
        );
    }
